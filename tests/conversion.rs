use nordnet_dinero::amount::decode_locale_decimal;
use nordnet_dinero::amount::AmountError;
use nordnet_dinero::amount::Decimal;
use nordnet_dinero::converter::convert;
use nordnet_dinero::converter::Converter;
use nordnet_dinero::date::Date;
use nordnet_dinero::record::AccountingEntry;
use nordnet_dinero::record::SourceTransaction;
use nordnet_dinero::record::TransactionKind;

fn tx(kind: TransactionKind, company: &str, isin: &str, day: u32, total: &str, fees: &str) -> SourceTransaction {
    SourceTransaction {
        date: Date::new(2021, 3, day).unwrap(),
        company: company.to_string(),
        isin: isin.to_string(),
        kind,
        description: String::new(),
        quantity: 0,
        price: "0".to_string(),
        fees: fees.to_string(),
        total: total.to_string(),
    }
}

fn numbers(es: &[AccountingEntry]) -> Vec<u64> {
    es.iter().map(|e| e.number).collect()
}

fn amounts(es: &[AccountingEntry]) -> Vec<String> {
    es.iter().map(|e| e.amount.clone()).collect()
}

fn decoded(s: &str) -> (i128, u32) {
    let d = decode_locale_decimal(s).unwrap();
    (d.mantissa, d.scale)
}

#[test]
fn decodes_thousands_and_comma() {
    assert_eq!(decoded("1.234,56"), (123456, 2));
    let d = decode_locale_decimal("1.234,56").unwrap();
    assert_eq!(d.to_locale_string(), "1234,56");
}

#[test]
fn decodes_negative_amount() {
    assert_eq!(decoded("-10,50"), (-1050, 2));
    let d = decode_locale_decimal("-10,50").unwrap();
    assert_eq!(d.to_locale_string(), "-10,5");
}

#[test]
fn decodes_after_trimming_white_space() {
    assert_eq!(decoded("  5,00\t"), (500, 2));
    assert_eq!(decoded("+7"), (7, 0));
    assert_eq!(decoded(",5"), (5, 1));
    assert_eq!(decoded("1.000.000"), (1000000, 0));
}

#[test]
fn rejects_malformed_amounts() {
    assert_eq!(decode_locale_decimal("").unwrap_err(), AmountError::Malformed);
    assert_eq!(decode_locale_decimal("abc").unwrap_err(), AmountError::Malformed);
    assert_eq!(decode_locale_decimal("1,2,3").unwrap_err(), AmountError::Malformed);
    assert_eq!(decode_locale_decimal("-").unwrap_err(), AmountError::Malformed);
    assert_eq!(decode_locale_decimal(",").unwrap_err(), AmountError::Malformed);
    assert_eq!(decode_locale_decimal("1e3").unwrap_err(), AmountError::Malformed);
}

#[test]
fn rejects_too_many_digits() {
    assert_eq!(
        decode_locale_decimal("1234567890123456789").unwrap_err(),
        AmountError::TooManyDigits
    );
    assert_eq!(decoded("123456789012345678"), (123456789012345678, 0));
}

#[test]
fn formats_amounts_in_shortest_form() {
    let show = |m: i128, s: u32| Decimal { mantissa: m, scale: s }.to_locale_string();
    assert_eq!(show(-100000, 2), "-1000");
    assert_eq!(show(0, 2), "0");
    assert_eq!(show(5, 1), "0,5");
    assert_eq!(show(-105, 3), "-0,105");
    assert_eq!(show(1200, 0), "1200");
}

#[test]
fn adds_amounts_at_the_finer_scale() {
    let a = decode_locale_decimal("-1.010,00").unwrap();
    let b = decode_locale_decimal("10,5").unwrap();
    let s = a.add(&b);
    assert_eq!((s.mantissa, s.scale), (-99950, 2));
    assert_eq!(s.to_locale_string(), "-999,5");
}

#[test]
fn formats_dates_without_padding() {
    assert_eq!(Date::new(2021, 3, 5).unwrap().to_text(), "5/3/2021");
    assert_eq!(Date::new(1999, 12, 31).unwrap().to_text(), "31/12/1999");
}

#[test]
fn rejects_days_that_do_not_exist() {
    assert!(Date::new(2021, 2, 29).is_none());
    assert!(Date::new(2020, 2, 29).is_some());
    assert!(Date::new(1900, 2, 29).is_none());
    assert!(Date::new(2000, 2, 29).is_some());
    assert!(Date::new(2021, 13, 1).is_none());
    assert!(Date::new(2021, 4, 31).is_none());
    assert!(Date::new(2021, 1, 0).is_none());
}

#[test]
fn reads_transaction_codes() {
    assert_eq!(TransactionKind::from_code("KØBT"), Some(TransactionKind::Purchase));
    assert_eq!(TransactionKind::from_code("UDB."), Some(TransactionKind::Dividend));
    assert_eq!(TransactionKind::from_code("UDBYTTESKAT"), Some(TransactionKind::DividendTax));
    assert_eq!(TransactionKind::from_code("DEPOTRENTE"), Some(TransactionKind::Interest));
    assert_eq!(TransactionKind::from_code("INDBETALING"), Some(TransactionKind::Payment));
    assert_eq!(TransactionKind::from_code("SOLGT"), None);
    assert_eq!(TransactionKind::from_code("KOBT"), None);
}

#[test]
fn net_amount_adds_fees_back() {
    let t = tx(TransactionKind::Purchase, "Foo", "X1", 1, "-1.010,00", "10,00");
    let net = t.net_amount().unwrap();
    assert_eq!(net.to_locale_string(), "-1000");
    let fees = t.fees_amount().unwrap();
    assert_eq!(fees.to_locale_string(), "10");
}

#[test]
fn purchase_and_interest_scenario() {
    let txs = vec![
        tx(TransactionKind::Purchase, "Foo", "X1", 1, "-1.010,00", "10,00"),
        tx(TransactionKind::Interest, "", "", 2, "5,00", "0,00"),
    ];
    let es = convert(txs, 67).unwrap();
    assert_eq!(es.len(), 3);
    assert_eq!(numbers(&es), vec![67, 67, 68]);
    assert_eq!(amounts(&es), vec!["-1000", "-10", "5"]);
    assert_eq!(es[0].text, "Køb af Foo, ISIN: X1");
    assert_eq!(es[0].balance_account, "51515");
    assert_eq!(es[1].text, "Kurtage af køb");
    assert_eq!(es[1].balance_account, "7220");
    assert_eq!(es[1].date, "1/3/2021");
    assert_eq!(es[2].text, "Renter");
    assert_eq!(es[2].balance_account, "9200");
    assert_eq!(es[2].date, "2/3/2021");
    for e in &es {
        assert_eq!(e.account, "55020");
        assert_eq!(e.account_vat_type, "Ingen moms");
        assert_eq!(e.balance_account_vat_type, "Ingen moms");
        assert_eq!(e.foreign_amount, "0,0");
    }
}

#[test]
fn dividend_tax_pairing_scenario() {
    let txs = vec![
        tx(TransactionKind::Dividend, "Bar", "Y2", 10, "100,00", "0,00"),
        tx(TransactionKind::DividendTax, "Other", "Z9", 11, "-15,00", "0,00"),
    ];
    let es = convert(txs, 1).unwrap();
    assert_eq!(es.len(), 2);
    assert_eq!(numbers(&es), vec![1, 1]);
    assert_eq!(es[0].text, "Udbytte - Bar, ISIN: Y2");
    assert_eq!(es[0].balance_account, "9020");
    assert_eq!(es[0].amount, "100");
    assert_eq!(es[1].text, "Udbytteskat - Bar, ISIN: Y2");
    assert_eq!(es[1].balance_account, "54055");
    assert_eq!(es[1].amount, "-15");
    assert_eq!(es[1].date, "10/3/2021");
}

#[test]
fn standalone_tax_is_dropped() {
    let txs = vec![
        tx(TransactionKind::DividendTax, "Bar", "Y2", 1, "-15,00", "0,00"),
        tx(TransactionKind::Interest, "", "", 2, "1,00", "0,00"),
    ];
    let es = convert(txs, 5).unwrap();
    assert_eq!(numbers(&es), vec![5]);
    assert_eq!(es[0].text, "Renter");
}

#[test]
fn tax_after_other_row_is_dropped() {
    let txs = vec![
        tx(TransactionKind::Dividend, "Bar", "Y2", 1, "100,00", "0,00"),
        tx(TransactionKind::Payment, "", "", 2, "50,00", "0,00"),
        tx(TransactionKind::DividendTax, "Bar", "Y2", 3, "-15,00", "0,00"),
    ];
    let es = convert(txs, 1).unwrap();
    assert_eq!(numbers(&es), vec![1]);
    assert_eq!(amounts(&es), vec!["100"]);
}

#[test]
fn payment_is_dropped() {
    let txs = vec![
        tx(TransactionKind::Payment, "", "", 1, "1.000,00", "0,00"),
        tx(TransactionKind::Purchase, "Foo", "X1", 2, "-100,00", "0,00"),
    ];
    let es = convert(txs, 3).unwrap();
    assert_eq!(numbers(&es), vec![3]);
    assert_eq!(amounts(&es), vec!["-100"]);
}

#[test]
fn purchase_without_fees_has_one_entry() {
    let txs = vec![tx(TransactionKind::Purchase, "Foo", "X1", 1, "-250,25", "0,00")];
    let es = convert(txs, 9).unwrap();
    assert_eq!(numbers(&es), vec![9]);
    assert_eq!(amounts(&es), vec!["-250,25"]);
}

#[test]
fn dividend_last_has_one_entry() {
    let txs = vec![
        tx(TransactionKind::Interest, "", "", 1, "1,00", "0,00"),
        tx(TransactionKind::Dividend, "Bar", "Y2", 2, "40,00", "0,00"),
    ];
    let es = convert(txs, 1).unwrap();
    assert_eq!(numbers(&es), vec![1, 2]);
}

#[test]
fn consecutive_dividends_take_only_the_next_row() {
    let txs = vec![
        tx(TransactionKind::Dividend, "A", "I1", 1, "10,00", "0,00"),
        tx(TransactionKind::Dividend, "B", "I2", 1, "20,00", "0,00"),
        tx(TransactionKind::DividendTax, "B", "I2", 1, "-3,00", "0,00"),
    ];
    let es = convert(txs, 1).unwrap();
    assert_eq!(numbers(&es), vec![1, 2, 2]);
    assert_eq!(es[2].text, "Udbytteskat - B, ISIN: I2");
}

#[test]
fn vouchers_count_up_from_the_seed() {
    let txs = vec![
        tx(TransactionKind::Payment, "", "", 1, "1,00", "0,00"),
        tx(TransactionKind::Purchase, "A", "I1", 1, "-11,00", "1,00"),
        tx(TransactionKind::DividendTax, "B", "I2", 1, "-3,00", "0,00"),
        tx(TransactionKind::Dividend, "B", "I2", 1, "20,00", "0,00"),
        tx(TransactionKind::DividendTax, "B", "I2", 1, "-3,00", "0,00"),
        tx(TransactionKind::Interest, "", "", 1, "0,10", "0,00"),
        tx(TransactionKind::Purchase, "C", "I3", 1, "-5,00", "0,00"),
    ];
    let es = convert(txs, 100).unwrap();
    assert_eq!(numbers(&es), vec![100, 100, 101, 101, 102, 103]);
    assert_eq!(amounts(&es), vec!["-10", "-1", "20", "-3", "0,1", "-5"]);
}

#[test]
fn order_of_transactions_is_kept() {
    let txs = vec![
        tx(TransactionKind::Interest, "", "", 3, "3,00", "0,00"),
        tx(TransactionKind::Interest, "", "", 1, "1,00", "0,00"),
        tx(TransactionKind::Interest, "", "", 2, "2,00", "0,00"),
    ];
    let es = convert(txs, 1).unwrap();
    assert_eq!(amounts(&es), vec!["3", "1", "2"]);
}

#[test]
fn bad_amount_aborts_the_run() {
    let txs = vec![
        tx(TransactionKind::Interest, "", "", 1, "1,00", "0,00"),
        tx(TransactionKind::Purchase, "Foo", "X1", 2, "-1x0", "0,00"),
    ];
    assert_eq!(convert(txs, 1).unwrap_err(), AmountError::Malformed);
    let txs = vec![tx(TransactionKind::Dividend, "Bar", "Y2", 1, "1,00", "99999999999999999999")];
    assert_eq!(convert(txs, 1).unwrap_err(), AmountError::TooManyDigits);
}

#[test]
fn bad_amount_of_dropped_row_is_ignored() {
    let txs = vec![tx(TransactionKind::Payment, "", "", 1, "oops", "")];
    assert_eq!(convert(txs, 1).unwrap().len(), 0);
}

#[test]
fn converter_walks_step_by_step() {
    let txs = vec![
        tx(TransactionKind::Dividend, "Bar", "Y2", 1, "100,00", "0,00"),
        tx(TransactionKind::DividendTax, "Bar", "Y2", 1, "-15,00", "0,00"),
        tx(TransactionKind::Interest, "", "", 2, "1,00", "0,00"),
    ];
    let mut c = Converter::new(txs, 7);
    let first = c.convert_transaction().unwrap();
    assert_eq!(numbers(&first), vec![7, 7]);
    let rest = c.convert().unwrap();
    assert_eq!(numbers(&rest), vec![8]);
}

#[test]
fn empty_input_gives_no_entries() {
    assert_eq!(convert(Vec::new(), 1).unwrap().len(), 0);
}

#[test]
fn dropped_rows_step_without_opening_a_voucher() {
    let txs = vec![
        tx(TransactionKind::Payment, "", "", 1, "1,00", "0,00"),
        tx(TransactionKind::DividendTax, "B", "I2", 1, "-3,00", "0,00"),
        tx(TransactionKind::Interest, "", "", 1, "2,00", "0,00"),
    ];
    let mut c = Converter::new(txs, 4);
    assert_eq!(c.convert_transaction().unwrap().len(), 0);
    assert_eq!(c.convert_transaction().unwrap().len(), 0);
    let last = c.convert_transaction().unwrap();
    assert_eq!(numbers(&last), vec![4]);
    assert_eq!(amounts(&last), vec!["2"]);
}
