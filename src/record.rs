//! The broker's transactions and the bookkeeping entries made from them.
use vstd::prelude::*;
use vstd::string::StrSliceExecFns;
use vstd::string::StringExecFns;
use crate::amount::AmountError;
use crate::amount::Decimal;
use crate::amount::amount_text;
use crate::amount::decode_locale_decimal;
use crate::amount::is_small;
use crate::amount::locale_decimal;
use crate::amount::sum;
use crate::date::Date;
use crate::date::date_text;

verus! {

/// What a broker transaction records.
#[derive(Debug, Clone, Copy, PartialEq, Eq, Structural)]
pub enum TransactionKind {
    Purchase,
    Dividend,
    DividendTax,
    Interest,
    Payment,
}

/// The kind that a transaction code of the export names.
pub open spec fn kind_of_code(code: Seq<char>) -> Option<TransactionKind> {
    if code == "KØBT"@ {
        Some(TransactionKind::Purchase)
    } else if code == "UDB."@ {
        Some(TransactionKind::Dividend)
    } else if code == "UDBYTTESKAT"@ {
        Some(TransactionKind::DividendTax)
    } else if code == "DEPOTRENTE"@ {
        Some(TransactionKind::Interest)
    } else if code == "INDBETALING"@ {
        Some(TransactionKind::Payment)
    } else {
        None
    }
}

/// Whether two strings hold the same characters.
pub fn same_text(a: &str, b: &str) -> (r: bool)
    ensures
        r == (a@ == b@),
{
    let n = a.unicode_len();
    if n != b.unicode_len() {
        return false;
    }
    let mut i: usize = 0;
    while i < n
        invariant
            i <= n,
            n == a@.len(),
            n == b@.len(),
            forall|j: int| 0 <= j < i ==> a@[j] == b@[j],
        decreases n - i,
    {
        if a.get_char(i) != b.get_char(i) {
            return false;
        }
        i += 1;
    }
    assert(a@ =~= b@);
    true
}

impl TransactionKind {
    /// Reads a transaction code of the export; an unknown code is `None`.
    pub fn from_code(code: &str) -> (r: Option<TransactionKind>)
        ensures
            r == kind_of_code(code@),
    {
        if same_text(code, "KØBT") {
            Some(TransactionKind::Purchase)
        } else if same_text(code, "UDB.") {
            Some(TransactionKind::Dividend)
        } else if same_text(code, "UDBYTTESKAT") {
            Some(TransactionKind::DividendTax)
        } else if same_text(code, "DEPOTRENTE") {
            Some(TransactionKind::Interest)
        } else if same_text(code, "INDBETALING") {
            Some(TransactionKind::Payment)
        } else {
            None
        }
    }
}

/// One row of the broker's export.
#[derive(Debug)]
pub struct SourceTransaction {
    pub date: Date,
    /// Name of the security.
    pub company: String,
    pub isin: String,
    pub kind: TransactionKind,
    pub description: String,
    /// Units bought (positive) or sold (negative).
    pub quantity: i64,
    /// Locale decimal.
    pub price: String,
    /// Locale decimal, never negative.
    pub fees: String,
    /// Locale decimal: the settled amount, negative where money left the account.
    pub total: String,
}

/// The settled amount with the fees added back: `total + fees`.
pub open spec fn net_value(t: SourceTransaction) -> Result<(int, nat), AmountError> {
    match locale_decimal(t.fees@) {
        Err(e) => Err(e),
        Ok(f) => match locale_decimal(t.total@) {
            Err(e) => Err(e),
            Ok(v) => Ok(sum(v, f)),
        },
    }
}

impl SourceTransaction {
    /// The fees as a number.
    pub fn fees_amount(&self) -> (r: Result<Decimal, AmountError>)
        ensures
            match r {
                Ok(d) => locale_decimal(self.fees@) == Ok::<(int, nat), AmountError>(d@)
                    && is_small(d@),
                Err(e) => locale_decimal(self.fees@) == Err::<(int, nat), AmountError>(e),
            },
    {
        decode_locale_decimal(self.fees.as_str())
    }

    /// The settled amount with the fees added back.
    pub fn net_amount(&self) -> (r: Result<Decimal, AmountError>)
        ensures
            match r {
                Ok(d) => net_value(*self) == Ok::<(int, nat), AmountError>(d@)
                    && crate::amount::is_bounded(d@),
                Err(e) => net_value(*self) == Err::<(int, nat), AmountError>(e),
            },
    {
        let fees = match self.fees_amount() {
            Ok(f) => f,
            Err(e) => return Err(e),
        };
        let total = match decode_locale_decimal(self.total.as_str()) {
            Ok(v) => v,
            Err(e) => return Err(e),
        };
        Ok(total.add(&fees))
    }
}

/// One row of the bookkeeping import.
#[derive(Debug)]
pub struct AccountingEntry {
    /// Voucher that the entry belongs to.
    pub number: u64,
    pub date: String,
    pub text: String,
    pub account: String,
    pub account_vat_type: String,
    pub amount: String,
    pub foreign_amount: String,
    pub balance_account: String,
    pub balance_account_vat_type: String,
}

pub struct EntryView {
    pub number: int,
    pub date: Seq<char>,
    pub text: Seq<char>,
    pub account: Seq<char>,
    pub account_vat_type: Seq<char>,
    pub amount: Seq<char>,
    pub foreign_amount: Seq<char>,
    pub balance_account: Seq<char>,
    pub balance_account_vat_type: Seq<char>,
}

impl View for AccountingEntry {
    type V = EntryView;

    open spec fn view(&self) -> EntryView {
        EntryView {
            number: self.number as int,
            date: self.date@,
            text: self.text@,
            account: self.account@,
            account_vat_type: self.account_vat_type@,
            amount: self.amount@,
            foreign_amount: self.foreign_amount@,
            balance_account: self.balance_account@,
            balance_account_vat_type: self.balance_account_vat_type@,
        }
    }
}

pub open spec fn views(v: Seq<AccountingEntry>) -> Seq<EntryView> {
    v.map_values(|e: AccountingEntry| e@)
}

// Fixed accounts and texts of the bookkeeping plan.
/// Securities held at the broker.
pub open spec fn securities_account() -> Seq<char> {
    "55020"@
}

/// Cash paid for purchases.
pub open spec fn cash_account() -> Seq<char> {
    "51515"@
}

/// Brokerage fee expense.
pub open spec fn fee_account() -> Seq<char> {
    "7220"@
}

/// Dividend income.
pub open spec fn dividend_account() -> Seq<char> {
    "9020"@
}

/// Withholding tax on dividends.
pub open spec fn dividend_tax_account() -> Seq<char> {
    "54055"@
}

/// Interest income.
pub open spec fn interest_account() -> Seq<char> {
    "9200"@
}

/// "No VAT".
pub open spec fn no_vat() -> Seq<char> {
    "Ingen moms"@
}

/// Zero, the amount in foreign currency.
pub open spec fn zero_text() -> Seq<char> {
    "0,0"@
}

/// `prefix` followed by the security's name and ISIN.
pub open spec fn security_text(prefix: Seq<char>, company: Seq<char>, isin: Seq<char>) -> Seq<
    char,
> {
    prefix + company + ", ISIN: "@ + isin
}

/// "Purchase of ...".
pub open spec fn purchase_prefix() -> Seq<char> {
    "Køb af "@
}

/// "Brokerage fee on purchase".
pub open spec fn purchase_fee_text() -> Seq<char> {
    "Kurtage af køb"@
}

/// "Dividend - ...".
pub open spec fn dividend_prefix() -> Seq<char> {
    "Udbytte - "@
}

/// "Dividend tax - ...".
pub open spec fn dividend_tax_prefix() -> Seq<char> {
    "Udbytteskat - "@
}

/// "Interest".
pub open spec fn interest_text() -> Seq<char> {
    "Renter"@
}

/// An entry against the securities account.
pub open spec fn entry_view(
    number: int,
    date: Date,
    text: Seq<char>,
    balance_account: Seq<char>,
    amount: (int, nat),
) -> EntryView {
    EntryView {
        number,
        date: date_text(date),
        text,
        account: securities_account(),
        account_vat_type: no_vat(),
        amount: amount_text(amount),
        foreign_amount: zero_text(),
        balance_account,
        balance_account_vat_type: no_vat(),
    }
}

pub fn make_entry(
    number: u64,
    date: &Date,
    text: String,
    balance_account: &str,
    amount: &Decimal,
) -> (r: AccountingEntry)
    requires
        crate::amount::is_bounded(amount@),
    ensures
        r@ == entry_view(number as int, *date, text@, balance_account@, amount@),
{
    AccountingEntry {
        number,
        date: date.to_text(),
        text,
        account: String::from_str("55020"),
        account_vat_type: String::from_str("Ingen moms"),
        amount: amount.to_locale_string(),
        foreign_amount: String::from_str("0,0"),
        balance_account: String::from_str(balance_account),
        balance_account_vat_type: String::from_str("Ingen moms"),
    }
}

pub fn make_security_text(prefix: &str, company: &String, isin: &String) -> (r: String)
    ensures
        r@ == security_text(prefix@, company@, isin@),
{
    let mut out = String::from_str(prefix);
    out.append(company.as_str());
    out.append(", ISIN: ");
    out.append(isin.as_str());
    assert(out@ =~= security_text(prefix@, company@, isin@));
    out
}

} // verus!
