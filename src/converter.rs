//! Turns the broker's transactions, oldest first, into bookkeeping entries.
use vstd::prelude::*;
use vstd::string::StringExecFns;
use crate::amount::AmountError;
use crate::amount::locale_decimal;
use crate::amount::negation;
use crate::record::AccountingEntry;
use crate::record::EntryView;
use crate::record::SourceTransaction;
use crate::record::TransactionKind;
use crate::record::cash_account;
use crate::record::dividend_account;
use crate::record::dividend_prefix;
use crate::record::dividend_tax_account;
use crate::record::dividend_tax_prefix;
use crate::record::entry_view;
use crate::record::fee_account;
use crate::record::interest_account;
use crate::record::interest_text;
use crate::record::make_entry;
use crate::record::make_security_text;
use crate::record::net_value;
use crate::record::purchase_fee_text;
use crate::record::purchase_prefix;
use crate::record::security_text;
use crate::record::views;

verus! {

/// `a` followed by `b`; the first error wins.
pub open spec fn chain(
    a: Result<Seq<EntryView>, AmountError>,
    b: Result<Seq<EntryView>, AmountError>,
) -> Result<Seq<EntryView>, AmountError> {
    match a {
        Err(e) => Err(e),
        Ok(x) => match b {
            Err(e) => Err(e),
            Ok(y) => Ok(x + y),
        },
    }
}

/// The purchase at its net amount, then, where fees were paid, the fee.
pub open spec fn purchase_entries(t: SourceTransaction, n: int) -> Result<
    Seq<EntryView>,
    AmountError,
> {
    match net_value(t) {
        Err(e) => Err(e),
        Ok(v) => {
            let f = locale_decimal(t.fees@)->Ok_0;
            let purchase = entry_view(
                n,
                t.date,
                security_text(purchase_prefix(), t.company@, t.isin@),
                cash_account(),
                v,
            );
            if f.0 > 0 {
                Ok(
                    seq![
                        purchase,
                        entry_view(n, t.date, purchase_fee_text(), fee_account(), negation(f)),
                    ],
                )
            } else {
                Ok(seq![purchase])
            }
        },
    }
}

pub open spec fn dividend_entry(t: SourceTransaction, n: int, v: (int, nat)) -> EntryView {
    entry_view(n, t.date, security_text(dividend_prefix(), t.company@, t.isin@), dividend_account(), v)
}

/// A dividend with no tax row after it.
pub open spec fn dividend_entries(t: SourceTransaction, n: int) -> Result<
    Seq<EntryView>,
    AmountError,
> {
    match net_value(t) {
        Err(e) => Err(e),
        Ok(v) => Ok(seq![dividend_entry(t, n, v)]),
    }
}

/// The tax withheld on dividend `t`, booked with the dividend's date, name and ISIN.
pub open spec fn dividend_tax_entry(t: SourceTransaction, n: int, w: (int, nat)) -> EntryView {
    entry_view(
        n,
        t.date,
        security_text(dividend_tax_prefix(), t.company@, t.isin@),
        dividend_tax_account(),
        w,
    )
}

/// A dividend `t` and the tax row `tax` right after it, under one voucher.
pub open spec fn paired_entries(t: SourceTransaction, tax: SourceTransaction, n: int) -> Result<
    Seq<EntryView>,
    AmountError,
> {
    match net_value(t) {
        Err(e) => Err(e),
        Ok(v) => match net_value(tax) {
            Err(e) => Err(e),
            Ok(w) => Ok(seq![dividend_entry(t, n, v), dividend_tax_entry(t, n, w)]),
        },
    }
}

pub open spec fn interest_entries(t: SourceTransaction, n: int) -> Result<
    Seq<EntryView>,
    AmountError,
> {
    match net_value(t) {
        Err(e) => Err(e),
        Ok(v) => Ok(seq![entry_view(n, t.date, interest_text(), interest_account(), v)]),
    }
}

/// Whether the transaction at `i` is a dividend whose tax row follows it.
pub open spec fn pairs_at(txs: Seq<SourceTransaction>, i: int) -> bool {
    0 <= i && i + 1 < txs.len() && txs[i].kind == TransactionKind::Dividend && txs[i
        + 1].kind == TransactionKind::DividendTax
}

/// The entries made from `txs[i..]` when the next voucher is `n`.
pub open spec fn entries_from(txs: Seq<SourceTransaction>, i: int, n: int) -> Result<
    Seq<EntryView>,
    AmountError,
>
    decreases txs.len() - i,
{
    if i < 0 || i >= txs.len() {
        Ok(Seq::empty())
    } else {
        let t = txs[i];
        match t.kind {
            TransactionKind::Purchase => chain(
                purchase_entries(t, n),
                entries_from(txs, i + 1, n + 1),
            ),
            TransactionKind::Dividend => if pairs_at(txs, i) {
                chain(paired_entries(t, txs[i + 1], n), entries_from(txs, i + 2, n + 1))
            } else {
                chain(dividend_entries(t, n), entries_from(txs, i + 1, n + 1))
            },
            TransactionKind::Interest => chain(
                interest_entries(t, n),
                entries_from(txs, i + 1, n + 1),
            ),
            _ => entries_from(txs, i + 1, n),
        }
    }
}

/// How many vouchers converting `txs[i..]` opens.
pub open spec fn vouchers_opened(txs: Seq<SourceTransaction>, i: int) -> int
    decreases txs.len() - i,
{
    if i < 0 || i >= txs.len() {
        0
    } else {
        match txs[i].kind {
            TransactionKind::Purchase => 1 + vouchers_opened(txs, i + 1),
            TransactionKind::Interest => 1 + vouchers_opened(txs, i + 1),
            TransactionKind::Dividend => if pairs_at(txs, i) {
                1 + vouchers_opened(txs, i + 2)
            } else {
                1 + vouchers_opened(txs, i + 1)
            },
            _ => vouchers_opened(txs, i + 1),
        }
    }
}

/// Whether the transaction at `i` opens a voucher.
pub open spec fn opens_voucher(txs: Seq<SourceTransaction>, i: int) -> bool {
    txs[i].kind == TransactionKind::Purchase || txs[i].kind == TransactionKind::Dividend
        || txs[i].kind == TransactionKind::Interest
}

/// Where the cursor stands after the step at `i`: past the tax row that a
/// dividend takes with it.
pub open spec fn step_end(txs: Seq<SourceTransaction>, i: int) -> int {
    if pairs_at(txs, i) {
        i + 2
    } else {
        i + 1
    }
}

/// The entries of the one step at `i` when the next voucher is `n`: those of
/// its kind, and none for a tax row standing alone or a payment.
pub open spec fn step_entries(txs: Seq<SourceTransaction>, i: int, n: int) -> Result<
    Seq<EntryView>,
    AmountError,
> {
    let t = txs[i];
    match t.kind {
        TransactionKind::Purchase => purchase_entries(t, n),
        TransactionKind::Dividend => if pairs_at(txs, i) {
            paired_entries(t, txs[i + 1], n)
        } else {
            dividend_entries(t, n)
        },
        TransactionKind::Interest => interest_entries(t, n),
        _ => Ok(Seq::empty()),
    }
}

/// A step, then the rest, is the whole.
pub proof fn lemma_step(txs: Seq<SourceTransaction>, i: int, n: int)
    requires
        0 <= i < txs.len(),
    ensures
        entries_from(txs, i, n) == chain(
            step_entries(txs, i, n),
            entries_from(txs, step_end(txs, i), n + if opens_voucher(txs, i) {
                1int
            } else {
                0
            }),
        ),
        vouchers_opened(txs, i) == (if opens_voucher(txs, i) {
            1int
        } else {
            0
        }) + vouchers_opened(txs, step_end(txs, i)),
{
    let rest = entries_from(txs, i + 1, n);
    if rest is Ok {
        assert(Seq::<EntryView>::empty() + rest->Ok_0 =~= rest->Ok_0);
    }
}

pub open spec fn result_views(r: Result<Vec<AccountingEntry>, AmountError>) -> Result<
    Seq<EntryView>,
    AmountError,
> {
    match r {
        Ok(v) => Ok(views(v@)),
        Err(e) => Err(e),
    }
}

/// Walks the transactions with one of lookahead, drawing voucher numbers
/// from a counter.
pub struct Converter {
    transactions: Vec<SourceTransaction>,
    cursor: usize,
    next_voucher: u64,
}

impl Converter {
    pub closed spec fn spec_transactions(&self) -> Seq<SourceTransaction> {
        self.transactions@
    }

    pub closed spec fn spec_cursor(&self) -> int {
        self.cursor as int
    }

    pub closed spec fn spec_next_voucher(&self) -> int {
        self.next_voucher as int
    }

    /// The counter cannot run past `u64::MAX`: each voucher takes at least
    /// one transaction.
    pub closed spec fn wf(&self) -> bool {
        self.cursor <= self.transactions.len() && self.next_voucher + (self.transactions.len()
            - self.cursor) <= u64::MAX
    }

    /// A converter over `transactions` whose first voucher is `first_voucher`.
    pub fn new(transactions: Vec<SourceTransaction>, first_voucher: u64) -> (r: Converter)
        requires
            first_voucher + transactions.len() <= u64::MAX,
        ensures
            r.wf(),
            r.spec_transactions() == transactions@,
            r.spec_cursor() == 0,
            r.spec_next_voucher() == first_voucher,
    {
        Converter { transactions, cursor: 0, next_voucher: first_voucher }
    }

    /// Opens a voucher: hands out the counter and moves it on by one.
    fn next(&mut self) -> (r: u64)
        requires
            old(self).next_voucher < u64::MAX,
        ensures
            r == old(self).next_voucher,
            final(self).next_voucher == old(self).next_voucher + 1,
            final(self).transactions == old(self).transactions,
            final(self).cursor == old(self).cursor,
    {
        let n = self.next_voucher;
        self.next_voucher = self.next_voucher + 1;
        n
    }

    /// The entries of the purchase at `i`, under a new voucher.
    fn convert_purchase(&mut self, i: usize) -> (r: Result<Vec<AccountingEntry>, AmountError>)
        requires
            i < old(self).transactions.len(),
            old(self).next_voucher < u64::MAX,
        ensures
            result_views(r) == purchase_entries(old(self).transactions@[i as int], old(self).next_voucher as int),
            final(self).next_voucher == old(self).next_voucher + 1,
            final(self).transactions == old(self).transactions,
            final(self).cursor == old(self).cursor,
    {
        let number = self.next();
        let t = &self.transactions[i];
        let net = match t.net_amount() {
            Ok(v) => v,
            Err(e) => return Err(e),
        };
        let fees = match t.fees_amount() {
            Ok(f) => f,
            Err(e) => return Err(e),
        };
        let mut records: Vec<AccountingEntry> = Vec::new();
        records.push(
            make_entry(number, &t.date, make_security_text("Køb af ", &t.company, &t.isin), "51515", &net),
        );
        if fees.is_positive() {
            let fee = fees.negate();
            records.push(make_entry(number, &t.date, String::from_str("Kurtage af køb"), "7220", &fee));
        }
        assert(result_views(Ok::<Vec<AccountingEntry>, AmountError>(records)) == purchase_entries(
            *t,
            number as int,
        )) by {
            assert(views(records@) =~= purchase_entries(*t, number as int)->Ok_0);
        }
        Ok(records)
    }

    /// The entries of the dividend at `i`, under a new voucher; where the next
    /// transaction is its tax, the tax too, which is then consumed.
    fn convert_dividend(&mut self, i: usize) -> (r: Result<Vec<AccountingEntry>, AmountError>)
        requires
            i + 1 == old(self).cursor,
            old(self).cursor <= old(self).transactions.len(),
            old(self).transactions@[i as int].kind == TransactionKind::Dividend,
            old(self).next_voucher < u64::MAX,
        ensures
            pairs_at(old(self).transactions@, i as int) ==> result_views(r) == paired_entries(
                old(self).transactions@[i as int],
                old(self).transactions@[i + 1],
                old(self).next_voucher as int,
            ),
            !pairs_at(old(self).transactions@, i as int) ==> result_views(r) == dividend_entries(
                old(self).transactions@[i as int],
                old(self).next_voucher as int,
            ),
            pairs_at(old(self).transactions@, i as int) ==> (r matches Ok(v) ==> v@.len() == 2
                && v@[0].number == old(self).next_voucher && v@[1].number
                == old(self).next_voucher && v@[1].date@ == v@[0].date@),
            r is Ok ==> final(self).cursor == (if pairs_at(old(self).transactions@, i as int) {
                old(self).cursor + 1
            } else {
                old(self).cursor as int
            }),
            final(self).next_voucher == old(self).next_voucher + 1,
            final(self).transactions == old(self).transactions,
    {
        let number = self.next();
        let t = &self.transactions[i];
        let net = match t.net_amount() {
            Ok(v) => v,
            Err(e) => return Err(e),
        };
        let mut records: Vec<AccountingEntry> = Vec::new();
        records.push(
            make_entry(number, &t.date, make_security_text("Udbytte - ", &t.company, &t.isin), "9020", &net),
        );
        let ghost txs = self.transactions@;
        if self.cursor < self.transactions.len()
            && self.transactions[self.cursor].kind == TransactionKind::DividendTax {
            let tax = &self.transactions[self.cursor];
            let withheld = match tax.net_amount() {
                Ok(v) => v,
                Err(e) => return Err(e),
            };
            records.push(
                make_entry(
                    number,
                    &t.date,
                    make_security_text("Udbytteskat - ", &t.company, &t.isin),
                    "54055",
                    &withheld,
                ),
            );
            self.cursor = self.cursor + 1;
            assert(views(records@) =~= paired_entries(txs[i as int], txs[i + 1], number as int)->Ok_0);
            assert(views(records@)[0] == records@[0]@ && views(records@)[1] == records@[1]@);
        } else {
            assert(views(records@) =~= dividend_entries(txs[i as int], number as int)->Ok_0);
        }
        Ok(records)
    }

    /// The entry of the interest at `i`, under a new voucher.
    fn convert_interest(&mut self, i: usize) -> (r: Result<Vec<AccountingEntry>, AmountError>)
        requires
            i < old(self).transactions.len(),
            old(self).next_voucher < u64::MAX,
        ensures
            result_views(r) == interest_entries(old(self).transactions@[i as int], old(self).next_voucher as int),
            final(self).next_voucher == old(self).next_voucher + 1,
            final(self).transactions == old(self).transactions,
            final(self).cursor == old(self).cursor,
    {
        let number = self.next();
        let t = &self.transactions[i];
        let net = match t.net_amount() {
            Ok(v) => v,
            Err(e) => return Err(e),
        };
        let mut records: Vec<AccountingEntry> = Vec::new();
        records.push(make_entry(number, &t.date, String::from_str("Renter"), "9200", &net));
        assert(views(records@) =~= interest_entries(*t, number as int)->Ok_0);
        Ok(records)
    }

    /// Consumes the transaction under the cursor, and the one after it where
    /// they pair, and returns their entries.
    pub fn convert_transaction(&mut self) -> (r: Result<Vec<AccountingEntry>, AmountError>)
        requires
            old(self).wf(),
            old(self).spec_cursor() < old(self).spec_transactions().len(),
        ensures
            final(self).spec_transactions() == old(self).spec_transactions(),
            result_views(r) == step_entries(
                old(self).spec_transactions(),
                old(self).spec_cursor(),
                old(self).spec_next_voucher(),
            ),
            r is Ok ==> final(self).wf() && final(self).spec_cursor() == step_end(
                old(self).spec_transactions(),
                old(self).spec_cursor(),
            ) && final(self).spec_next_voucher() == old(self).spec_next_voucher() + if opens_voucher(
                old(self).spec_transactions(),
                old(self).spec_cursor(),
            ) {
                1int
            } else {
                0
            },
    {
        let i = self.cursor;
        self.cursor = self.cursor + 1;
        match self.transactions[i].kind {
            TransactionKind::Purchase => self.convert_purchase(i),
            TransactionKind::Dividend => self.convert_dividend(i),
            TransactionKind::Interest => self.convert_interest(i),
            _ => {
                let none: Vec<AccountingEntry> = Vec::new();
                assert(views(none@) =~= Seq::empty());
                Ok(none)
            },
        }
    }

    /// Converts every transaction not yet consumed, in order.
    pub fn convert(&mut self) -> (r: Result<Vec<AccountingEntry>, AmountError>)
        requires
            old(self).wf(),
        ensures
            result_views(r) == entries_from(
                old(self).spec_transactions(),
                old(self).spec_cursor(),
                old(self).spec_next_voucher(),
            ),
            r is Ok ==> final(self).spec_transactions() == old(self).spec_transactions()
                && final(self).spec_cursor() == old(self).spec_transactions().len()
                && final(self).spec_next_voucher() == old(self).spec_next_voucher()
                + vouchers_opened(old(self).spec_transactions(), old(self).spec_cursor()),
    {
        let mut records: Vec<AccountingEntry> = Vec::new();
        let ghost txs = self.transactions@;
        let ghost goal = entries_from(txs, self.cursor as int, self.next_voucher as int);
        assert(views(records@) =~= Seq::empty());
        assert(chain(Ok(views(records@)), goal) =~= goal) by {
            if goal is Ok {
                assert(Seq::<EntryView>::empty() + goal->Ok_0 =~= goal->Ok_0);
            }
        }
        while self.cursor < self.transactions.len()
            invariant
                self.wf(),
                self.transactions@ == txs,
                txs == old(self).spec_transactions(),
                goal == entries_from(
                    old(self).spec_transactions(),
                    old(self).spec_cursor(),
                    old(self).spec_next_voucher(),
                ),
                goal == chain(
                    Ok(views(records@)),
                    entries_from(txs, self.cursor as int, self.next_voucher as int),
                ),
                self.next_voucher + vouchers_opened(txs, self.cursor as int)
                    == old(self).spec_next_voucher() + vouchers_opened(
                    txs,
                    old(self).spec_cursor(),
                ),
            decreases self.transactions.len() - self.cursor,
        {
            proof {
                lemma_step(txs, self.cursor as int, self.next_voucher as int);
            }
            let ghost before = views(records@);
            let ghost here = entries_from(txs, self.cursor as int, self.next_voucher as int);
            match self.convert_transaction() {
                Ok(mut items) => {
                    let ghost added = views(items@);
                    records.append(&mut items);
                    assert(views(records@) =~= before + added);
                    proof {
                        let rest = entries_from(txs, self.cursor as int, self.next_voucher as int);
                        if rest is Ok {
                            assert(before + (added + rest->Ok_0) =~= (before + added) + rest->Ok_0);
                        }
                    }
                },
                Err(e) => {
                    assert(here == Err::<Seq<EntryView>, AmountError>(e));
                    return Err(e);
                },
            }
        }
        assert(views(records@) + Seq::empty() =~= views(records@));
        Ok(records)
    }
}

/// The entries made from `transactions`, oldest first, with vouchers
/// numbered from `first_voucher`.
pub fn convert(transactions: Vec<SourceTransaction>, first_voucher: u64) -> (r: Result<
    Vec<AccountingEntry>,
    AmountError,
>)
    requires
        first_voucher + transactions.len() <= u64::MAX,
    ensures
        result_views(r) == entries_from(transactions@, 0, first_voucher as int),
{
    let mut converter = Converter::new(transactions, first_voucher);
    converter.convert()
}

} // verus!
