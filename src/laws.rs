//! What holds of every conversion.
use vstd::prelude::*;
use crate::amount::AmountError;
use crate::amount::amount_text;
use crate::amount::locale_decimal;
use crate::amount::negation;
use crate::converter::chain;
use crate::converter::dividend_entries;
use crate::converter::entries_from;
use crate::converter::interest_entries;
use crate::converter::paired_entries;
use crate::converter::pairs_at;
use crate::converter::purchase_entries;
use crate::converter::vouchers_opened;
use crate::converter::lemma_step;
use crate::converter::opens_voucher;
use crate::converter::step_end;
use crate::converter::step_entries;
use crate::date::date_text;
use crate::record::EntryView;
use crate::record::SourceTransaction;
use crate::record::TransactionKind;
use crate::record::net_value;

verus! {

/// Every entry in `es` carries voucher `n`, and there is at least one.
pub open spec fn one_voucher(es: Seq<EntryView>, n: int) -> bool {
    es.len() > 0 && forall|j: int| 0 <= j < es.len() ==> (#[trigger] es[j]).number == n
}

/// Voucher numbers start at `n` and, from one entry to the next, stay or
/// go up by exactly one.
pub open spec fn numbered_from(es: Seq<EntryView>, n: int) -> bool {
    &&& (es.len() > 0 ==> es[0].number == n)
    &&& forall|j: int|
        0 <= j < es.len() - 1 ==> #[trigger] es[j + 1].number == es[j].number || es[j + 1].number
            == es[j].number + 1
}

proof fn lemma_numbered_append(x: Seq<EntryView>, y: Seq<EntryView>, n: int)
    requires
        one_voucher(x, n),
        numbered_from(y, n + 1),
    ensures
        numbered_from(x + y, n),
{
    let z = x + y;
    assert forall|j: int| 0 <= j < z.len() - 1 implies #[trigger] z[j + 1].number == z[j].number
        || z[j + 1].number == z[j].number + 1 by {
        if j + 1 < x.len() {
            assert(z[j] == x[j] && z[j + 1] == x[j + 1]);
        } else if j + 1 == x.len() {
            assert(z[j] == x[j] && z[j + 1] == y[0]);
        } else {
            assert(z[j] == y[j - x.len()] && z[j + 1] == y[j - x.len() + 1]);
        }
    }
}

proof fn lemma_numbered_chain(
    g: Result<Seq<EntryView>, AmountError>,
    rest: Result<Seq<EntryView>, AmountError>,
    n: int,
)
    requires
        g matches Ok(x) ==> one_voucher(x, n),
        rest matches Ok(y) ==> numbered_from(y, n + 1),
    ensures
        chain(g, rest) matches Ok(z) ==> numbered_from(z, n),
{
    if g is Ok && rest is Ok {
        lemma_numbered_append(g->Ok_0, rest->Ok_0, n);
    }
}

proof fn lemma_numbered_from(txs: Seq<SourceTransaction>, i: int, n: int)
    ensures
        entries_from(txs, i, n) matches Ok(es) ==> numbered_from(es, n),
    decreases txs.len() - i,
{
    if 0 <= i < txs.len() {
        let t = txs[i];
        match t.kind {
            TransactionKind::Purchase => {
                lemma_numbered_from(txs, i + 1, n + 1);
                lemma_numbered_chain(purchase_entries(t, n), entries_from(txs, i + 1, n + 1), n);
            },
            TransactionKind::Dividend => {
                if pairs_at(txs, i) {
                    lemma_numbered_from(txs, i + 2, n + 1);
                    lemma_numbered_chain(
                        paired_entries(t, txs[i + 1], n),
                        entries_from(txs, i + 2, n + 1),
                        n,
                    );
                } else {
                    lemma_numbered_from(txs, i + 1, n + 1);
                    lemma_numbered_chain(
                        dividend_entries(t, n),
                        entries_from(txs, i + 1, n + 1),
                        n,
                    );
                }
            },
            TransactionKind::Interest => {
                lemma_numbered_from(txs, i + 1, n + 1);
                lemma_numbered_chain(interest_entries(t, n), entries_from(txs, i + 1, n + 1), n);
            },
            _ => {
                lemma_numbered_from(txs, i + 1, n);
            },
        }
    } else {
        assert(entries_from(txs, i, n) == Ok::<Seq<EntryView>, AmountError>(Seq::empty()));
    }
}

/// Voucher numbers: the entries of a conversion that starts at voucher `n`
/// begin with `n`, and each entry either shares the voucher of the one
/// before it or opens the next one, exactly one higher.
pub proof fn law_vouchers_count_up(txs: Seq<SourceTransaction>, n: int)
    ensures
        entries_from(txs, 0, n) matches Ok(es) ==> numbered_from(es, n),
{
    lemma_numbered_from(txs, 0, n);
}

/// A dividend that is followed by its tax row makes exactly two entries,
/// both under the dividend's voucher and dated with the dividend's date;
/// the tax row makes nothing of its own, and numbering goes on after it.
pub proof fn law_dividend_tax_pairs(txs: Seq<SourceTransaction>, i: int, n: int)
    requires
        0 <= i,
        i + 1 < txs.len(),
        txs[i].kind == TransactionKind::Dividend,
        txs[i + 1].kind == TransactionKind::DividendTax,
    ensures
        entries_from(txs, i, n) == chain(
            paired_entries(txs[i], txs[i + 1], n),
            entries_from(txs, i + 2, n + 1),
        ),
        paired_entries(txs[i], txs[i + 1], n) matches Ok(es) ==> es.len() == 2 && one_voucher(
            es,
            n,
        ) && es[1].date == date_text(txs[i].date) && es[0].date == es[1].date,
{
}

/// A tax row that no dividend right before it has taken makes no entry and
/// opens no voucher.
pub proof fn law_standalone_tax_dropped(txs: Seq<SourceTransaction>, i: int, n: int)
    requires
        0 <= i < txs.len(),
        txs[i].kind == TransactionKind::DividendTax,
    ensures
        entries_from(txs, i, n) == entries_from(txs, i + 1, n),
{
}

/// A payment makes no entry and opens no voucher.
pub proof fn law_payment_dropped(txs: Seq<SourceTransaction>, i: int, n: int)
    requires
        0 <= i < txs.len(),
        txs[i].kind == TransactionKind::Payment,
    ensures
        entries_from(txs, i, n) == entries_from(txs, i + 1, n),
{
}

/// A purchase without fees makes one entry; one with fees makes two under
/// one voucher, the second for the fee, negated.
pub proof fn law_purchase_fee(t: SourceTransaction, n: int)
    requires
        net_value(t) is Ok,
    ensures
        locale_decimal(t.fees@)->Ok_0.0 == 0 ==> (purchase_entries(t, n) matches Ok(es)
            && es.len() == 1 && one_voucher(es, n)),
        locale_decimal(t.fees@)->Ok_0.0 > 0 ==> (purchase_entries(t, n) matches Ok(es)
            && es.len() == 2 && one_voucher(es, n) && es[1].amount == amount_text(
            negation(locale_decimal(t.fees@)->Ok_0),
        )),
{
}

proof fn lemma_chain_assoc(
    a: Result<Seq<EntryView>, AmountError>,
    b: Result<Seq<EntryView>, AmountError>,
    c: Result<Seq<EntryView>, AmountError>,
)
    ensures
        chain(chain(a, b), c) == chain(a, chain(b, c)),
{
    if a is Ok && b is Ok && c is Ok {
        assert((a->Ok_0 + b->Ok_0) + c->Ok_0 =~= a->Ok_0 + (b->Ok_0 + c->Ok_0));
    }
}

proof fn lemma_chain_empty(c: Result<Seq<EntryView>, AmountError>)
    ensures
        chain(Ok(Seq::empty()), c) == c,
{
    if c is Ok {
        assert(Seq::<EntryView>::empty() + c->Ok_0 =~= c->Ok_0);
    }
}

proof fn lemma_shift(a: Seq<SourceTransaction>, b: Seq<SourceTransaction>, j: int, m: int)
    requires
        0 <= j <= b.len(),
    ensures
        entries_from(a + b, a.len() + j, m) == entries_from(b, j, m),
    decreases b.len() - j,
{
    let ab = a + b;
    let k = a.len() + j;
    if j < b.len() {
        assert(ab[k] == b[j]);
        if j + 1 < b.len() {
            assert(ab[k + 1] == b[j + 1]);
        }
        assert(pairs_at(ab, k) == pairs_at(b, j));
        lemma_shift(a, b, j + 1, m);
        lemma_shift(a, b, j + 1, m + 1);
        if j + 2 <= b.len() {
            lemma_shift(a, b, j + 2, m + 1);
        }
    }
}

proof fn lemma_split(a: Seq<SourceTransaction>, b: Seq<SourceTransaction>, i: int, n: int)
    requires
        0 <= i <= a.len(),
        !(a.len() > 0 && b.len() > 0 && a.last().kind == TransactionKind::Dividend && b[0].kind
            == TransactionKind::DividendTax),
    ensures
        entries_from(a + b, i, n) == chain(
            entries_from(a, i, n),
            entries_from(b, 0, n + vouchers_opened(a, i)),
        ),
    decreases a.len() - i,
{
    let ab = a + b;
    if i == a.len() {
        lemma_shift(a, b, 0, n);
        lemma_chain_empty(entries_from(b, 0, n));
    } else {
        let t = a[i];
        assert(ab[i] == t);
        if i + 1 < a.len() {
            assert(ab[i + 1] == a[i + 1]);
        } else if b.len() > 0 {
            assert(ab[i + 1] == b[0]);
            assert(a.last() == t);
        }
        assert(pairs_at(ab, i) == pairs_at(a, i));
        match t.kind {
            TransactionKind::Purchase => {
                lemma_split(a, b, i + 1, n + 1);
                lemma_chain_assoc(
                    purchase_entries(t, n),
                    entries_from(a, i + 1, n + 1),
                    entries_from(b, 0, n + vouchers_opened(a, i)),
                );
            },
            TransactionKind::Interest => {
                lemma_split(a, b, i + 1, n + 1);
                lemma_chain_assoc(
                    interest_entries(t, n),
                    entries_from(a, i + 1, n + 1),
                    entries_from(b, 0, n + vouchers_opened(a, i)),
                );
            },
            TransactionKind::Dividend => {
                if pairs_at(a, i) {
                    lemma_split(a, b, i + 2, n + 1);
                    lemma_chain_assoc(
                        paired_entries(t, a[i + 1], n),
                        entries_from(a, i + 2, n + 1),
                        entries_from(b, 0, n + vouchers_opened(a, i)),
                    );
                } else {
                    lemma_split(a, b, i + 1, n + 1);
                    lemma_chain_assoc(
                        dividend_entries(t, n),
                        entries_from(a, i + 1, n + 1),
                        entries_from(b, 0, n + vouchers_opened(a, i)),
                    );
                }
            },
            _ => {
                lemma_split(a, b, i + 1, n);
            },
        }
    }
}

/// Order is kept: converting `a` followed by `b` gives the entries of `a`
/// followed by those of `b`, numbered on from where `a` stopped, unless `a`
/// ends in a dividend whose tax row opens `b`.
pub proof fn law_order_kept(a: Seq<SourceTransaction>, b: Seq<SourceTransaction>, n: int)
    requires
        !(a.len() > 0 && b.len() > 0 && a.last().kind == TransactionKind::Dividend && b[0].kind
            == TransactionKind::DividendTax),
    ensures
        entries_from(a + b, 0, n) == chain(
            entries_from(a, 0, n),
            entries_from(b, 0, n + vouchers_opened(a, 0)),
        ),
{
    lemma_split(a, b, 0, n);
}

/// For each entry made from `txs[i..]`, the index of the transaction it was
/// made from (for a tax entry, its dividend's).
pub open spec fn origins_from(txs: Seq<SourceTransaction>, i: int, n: int) -> Seq<int>
    decreases txs.len() - i,
{
    if i < 0 || i >= txs.len() {
        Seq::empty()
    } else {
        let k = match step_entries(txs, i, n) {
            Ok(x) => x.len(),
            Err(_) => 0,
        };
        Seq::new(k, |_j: int| i) + origins_from(
            txs,
            step_end(txs, i),
            n + if opens_voucher(txs, i) {
                1int
            } else {
                0
            },
        )
    }
}

/// Entries in the order of their transactions: origins never go back, and
/// entries of one origin share a voucher.
pub open spec fn ordered_by_origin(es: Seq<EntryView>, o: Seq<int>, lo: int, hi: int) -> bool {
    &&& o.len() == es.len()
    &&& forall|k: int| 0 <= k < o.len() ==> lo <= #[trigger] o[k] < hi
    &&& forall|k: int, l: int|
        0 <= k < l < o.len() ==> #[trigger] o[k] <= #[trigger] o[l] && (o[k] == o[l]
            ==> es[k].number == es[l].number)
}

proof fn lemma_step_numbered(txs: Seq<SourceTransaction>, i: int, n: int)
    requires
        0 <= i < txs.len(),
    ensures
        step_entries(txs, i, n) matches Ok(x) ==> forall|j: int|
            0 <= j < x.len() ==> (#[trigger] x[j]).number == n,
{
}

proof fn lemma_origins(txs: Seq<SourceTransaction>, i: int, n: int)
    requires
        0 <= i,
    ensures
        entries_from(txs, i, n) matches Ok(es) ==> ordered_by_origin(
            es,
            origins_from(txs, i, n),
            i,
            txs.len() as int,
        ),
    decreases txs.len() - i,
{
    if i < txs.len() {
        let m = n + if opens_voucher(txs, i) {
            1int
        } else {
            0
        };
        let e = step_end(txs, i);
        lemma_step(txs, i, n);
        lemma_step_numbered(txs, i, n);
        lemma_origins(txs, e, m);
        if entries_from(txs, i, n) is Ok {
            let x = step_entries(txs, i, n)->Ok_0;
            let y = entries_from(txs, e, m)->Ok_0;
            let es = x + y;
            let ox = Seq::new(x.len(), |_j: int| i);
            let oy = origins_from(txs, e, m);
            let o = ox + oy;
            assert(entries_from(txs, i, n)->Ok_0 == es);
            assert(origins_from(txs, i, n) == o);
            assert forall|k: int| 0 <= k < o.len() implies i <= #[trigger] o[k] < txs.len() by {
                if k >= x.len() {
                    assert(o[k] == oy[k - x.len()]);
                }
            }
            assert forall|k: int, l: int| 0 <= k < l < o.len() implies #[trigger] o[k]
                <= #[trigger] o[l] && (o[k] == o[l] ==> es[k].number == es[l].number) by {
                if l < x.len() {
                    assert(es[k] == x[k] && es[l] == x[l]);
                } else if k < x.len() {
                    assert(o[l] == oy[l - x.len()]);
                    assert(o[k] == i);
                } else {
                    assert(o[k] == oy[k - x.len()] && o[l] == oy[l - x.len()]);
                    assert(es[k] == y[k - x.len()] && es[l] == y[l - x.len()]);
                }
            }
        }
    }
}

/// Order is kept: giving each entry the index of the transaction it was made
/// from, those indices never go back, and entries of one transaction (or one
/// dividend with its tax) stand together under one voucher.
pub proof fn law_entries_follow_their_transactions(txs: Seq<SourceTransaction>, n: int)
    ensures
        entries_from(txs, 0, n) matches Ok(es) ==> ordered_by_origin(
            es,
            origins_from(txs, 0, n),
            0,
            txs.len() as int,
        ),
{
    lemma_origins(txs, 0, n);
}

} // verus!
