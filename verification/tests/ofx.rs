use ledger_oxide::date::CalendarDate;
use ledger_oxide::ofx::{extract_tag, parse_amount_cents, parse_ofx, parse_ofx_date};

const SAMPLE_OFX: &str = r#"
OFXHEADER:100
DATA:OFXSGML
VERSION:230

<OFX>
<BANKACCTFROM>
<BANKID>123456789
<ACCTID>123456
</BANKACCTFROM>

<BANKTRANLIST>
<STMTTRN>
<TRNTYPE>CREDIT
<DTPOSTED>20240115
<TRNAMT>1234.56
<FITID>TXN001
<NAME>Paycheck
</STMTTRN>
<STMTTRN>
<TRNTYPE>DEBIT
<DTPOSTED>20240116
<TRNAMT>-50.25
<FITID>TXN002
<NAME>Grocery Store
</STMTTRN>
</BANKTRANLIST>

<LEDGERBAL>
<BALAMT>5678.90
</LEDGERBAL>
</OFX>
"#;

fn date(year: i32, month: u32, day: u32) -> CalendarDate {
    CalendarDate { year, month, day }
}

#[test]
fn test_parse_ofx() {
    let result = parse_ofx(SAMPLE_OFX).unwrap();
    assert_eq!(result.balance_cents, 567890);
    assert_eq!(result.transactions.len(), 2);
    assert_eq!(result.transactions[0].fitid.as_deref(), Some("TXN001"));
    assert_eq!(result.transactions[0].amount_cents, 123456);
    assert_eq!(result.transactions[0].name.as_deref(), Some("Paycheck"));
    assert_eq!(result.transactions[1].amount_cents, -5025);
}

#[test]
fn parse_ofx_reads_every_field_of_a_transaction() {
    let result = parse_ofx(SAMPLE_OFX).unwrap();
    let first = &result.transactions[0];
    assert_eq!(first.trntype.as_deref(), Some("CREDIT"));
    assert_eq!(first.memo, None);
    assert_eq!(first.date, date(2024, 1, 15));
    let second = &result.transactions[1];
    assert_eq!(second.trntype.as_deref(), Some("DEBIT"));
    assert_eq!(second.name.as_deref(), Some("Grocery Store"));
    assert_eq!(second.date, date(2024, 1, 16));
}

#[test]
fn parse_ofx_orders_by_fitid_and_keeps_ties_in_file_order() {
    let content = "<STMTTRN><FITID>B<TRNAMT>1</STMTTRN>\
                   <STMTTRN><TRNAMT>2</STMTTRN>\
                   <STMTTRN><FITID>A<TRNAMT>3</STMTTRN>\
                   <STMTTRN><FITID>B<TRNAMT>4</STMTTRN>\
                   <STMTTRN><TRNAMT>5</STMTTRN>";
    let result = parse_ofx(content).unwrap();
    let amounts: Vec<i32> = result.transactions.iter().map(|t| t.amount_cents).collect();
    assert_eq!(amounts, vec![200, 500, 300, 100, 400]);
    assert_eq!(result.transactions[0].fitid, None);
    assert_eq!(result.transactions[2].fitid.as_deref(), Some("A"));
}

#[test]
fn parse_ofx_falls_back_for_missing_values() {
    let content = "<STMTTRN><NAME>No date</STMTTRN>";
    let result = parse_ofx(content).unwrap();
    assert_eq!(result.balance_cents, 0);
    assert_eq!(result.transactions.len(), 1);
    assert_eq!(result.transactions[0].date, date(1970, 1, 1));
    assert_eq!(result.transactions[0].amount_cents, 0);
    assert_eq!(result.transactions[0].fitid, None);
}

#[test]
fn parse_ofx_ignores_an_unclosed_transaction() {
    let content = "<STMTTRN><FITID>1</STMTTRN><STMTTRN><FITID>2";
    let result = parse_ofx(content).unwrap();
    assert_eq!(result.transactions.len(), 1);
    assert_eq!(result.transactions[0].fitid.as_deref(), Some("1"));
}

#[test]
fn parse_ofx_of_empty_text_is_empty() {
    let result = parse_ofx("").unwrap();
    assert_eq!(result.balance_cents, 0);
    assert!(result.transactions.is_empty());
}

#[test]
fn parse_ofx_takes_the_first_block_up_to_the_first_closing_tag() {
    let content = "<STMTTRN><FITID>outer<STMTTRN><FITID>inner</STMTTRN></STMTTRN>";
    let result = parse_ofx(content).unwrap();
    assert_eq!(result.transactions.len(), 1);
    assert_eq!(result.transactions[0].fitid.as_deref(), Some("outer"));
}

#[test]
fn extract_tag_reads_up_to_the_next_tag_and_trims() {
    assert_eq!(extract_tag("<NAME>  Paycheck \n<FITID>1", "NAME").as_deref(), Some("Paycheck"));
    assert_eq!(extract_tag("<MEMO>a b", "MEMO").as_deref(), Some("a b"));
    assert_eq!(extract_tag("<MEMO><NAME>x", "MEMO").as_deref(), Some(""));
    assert_eq!(extract_tag("<NAME>x", "MEMO"), None);
    assert_eq!(extract_tag("<FNAME>x<NAME>y", "NAME").as_deref(), Some("y"));
    assert_eq!(extract_tag("<NAME>first<NAME>second", "NAME").as_deref(), Some("first"));
}

#[test]
fn extract_tag_trims_unicode_white_space() {
    assert_eq!(extract_tag("<NAME>\u{a0}Caf\u{e9}\u{3000}", "NAME").as_deref(), Some("Caf\u{e9}"));
}

#[test]
fn parse_ofx_date_reads_year_month_day() {
    assert_eq!(parse_ofx_date("20240115"), Some(date(2024, 1, 15)));
    assert_eq!(parse_ofx_date(" 20240115120000.000[-5:EST] "), Some(date(2024, 1, 15)));
    assert_eq!(parse_ofx_date("2024-01-15"), Some(date(2024, 1, 15)));
    assert_eq!(parse_ofx_date("20240229"), Some(date(2024, 2, 29)));
}

#[test]
fn parse_ofx_date_rejects_what_is_no_date() {
    assert_eq!(parse_ofx_date("20230229"), None);
    assert_eq!(parse_ofx_date("20241301"), None);
    assert_eq!(parse_ofx_date("20240100"), None);
    assert_eq!(parse_ofx_date("2024011"), None);
    assert_eq!(parse_ofx_date(""), None);
    assert_eq!(parse_ofx_date("[20240115"), None);
    assert_eq!(parse_ofx_date("2024[0115"), None);
}

#[test]
fn parse_amount_cents_reads_decimals() {
    assert_eq!(parse_amount_cents("1234.56"), Some(123456));
    assert_eq!(parse_amount_cents("-50.25"), Some(-5025));
    assert_eq!(parse_amount_cents("5678.90"), Some(567890));
    assert_eq!(parse_amount_cents(" 1,234.5 "), Some(123450));
    assert_eq!(parse_amount_cents("+7"), Some(700));
    assert_eq!(parse_amount_cents(".5"), Some(50));
    assert_eq!(parse_amount_cents("5."), Some(500));
    assert_eq!(parse_amount_cents("-0"), Some(0));
}

#[test]
fn parse_amount_cents_rounds_half_away_from_zero() {
    assert_eq!(parse_amount_cents("0.125"), Some(13));
    assert_eq!(parse_amount_cents("-0.125"), Some(-13));
    assert_eq!(parse_amount_cents("0.1249"), Some(12));
    assert_eq!(parse_amount_cents("2.999"), Some(300));
}

#[test]
fn parse_amount_cents_saturates() {
    assert_eq!(parse_amount_cents("21474836.47"), Some(i32::MAX));
    assert_eq!(parse_amount_cents("21474836.48"), Some(i32::MAX));
    assert_eq!(parse_amount_cents("-21474836.48"), Some(i32::MIN));
    assert_eq!(parse_amount_cents("99999999999999999999999"), Some(i32::MAX));
    assert_eq!(parse_amount_cents("-99999999999999999999999"), Some(i32::MIN));
}

#[test]
fn parse_amount_cents_rejects_what_is_no_decimal() {
    assert_eq!(parse_amount_cents(""), None);
    assert_eq!(parse_amount_cents("abc"), None);
    assert_eq!(parse_amount_cents("1.2.3"), None);
    assert_eq!(parse_amount_cents("."), None);
    assert_eq!(parse_amount_cents("-"), None);
    assert_eq!(parse_amount_cents("1 2"), None);
    assert_eq!(parse_amount_cents("--1"), None);
}

#[test]
fn parse_amount_cents_reads_exponents() {
    assert_eq!(parse_amount_cents("1.5e2"), Some(15000));
    assert_eq!(parse_amount_cents("1E3"), Some(100000));
    assert_eq!(parse_amount_cents("-2.5e1"), Some(-2500));
    assert_eq!(parse_amount_cents("1e-2"), Some(1));
    assert_eq!(parse_amount_cents("5e-3"), Some(1));
    assert_eq!(parse_amount_cents("4.9e-3"), Some(0));
    assert_eq!(parse_amount_cents("1.e1"), Some(1000));
    assert_eq!(parse_amount_cents(".5e+1"), Some(500));
    assert_eq!(parse_amount_cents("1e400"), Some(i32::MAX));
    assert_eq!(parse_amount_cents("-1e400"), Some(i32::MIN));
    assert_eq!(parse_amount_cents("1e-400"), Some(0));
    assert_eq!(parse_amount_cents("0e99999999999999999999999999999"), Some(0));
    assert_eq!(parse_amount_cents("1e99999999999999999999999999999"), Some(i32::MAX));
    assert_eq!(parse_amount_cents("1e-99999999999999999999999999999"), Some(0));
}

#[test]
fn parse_amount_cents_rejects_broken_exponents() {
    assert_eq!(parse_amount_cents("1e"), None);
    assert_eq!(parse_amount_cents("e5"), None);
    assert_eq!(parse_amount_cents("1e+"), None);
    assert_eq!(parse_amount_cents("1e5.0"), None);
    assert_eq!(parse_amount_cents("1e2e3"), None);
}

#[test]
fn parse_amount_cents_reads_infinities_and_nan() {
    assert_eq!(parse_amount_cents("inf"), Some(i32::MAX));
    assert_eq!(parse_amount_cents("+INF"), Some(i32::MAX));
    assert_eq!(parse_amount_cents("-Infinity"), Some(i32::MIN));
    assert_eq!(parse_amount_cents("NaN"), Some(0));
    assert_eq!(parse_amount_cents("-nan"), Some(0));
    assert_eq!(parse_amount_cents("infin"), None);
}

#[test]
fn parse_amount_cents_is_exact_in_decimal() {
    assert_eq!(parse_amount_cents("1.005"), Some(101));
    assert_eq!(parse_amount_cents("0.285"), Some(29));
}

#[test]
fn minus_sign_negates_an_amount() {
    assert_eq!(parse_amount_cents("12.34"), Some(1234));
    assert_eq!(parse_amount_cents("-12.34"), Some(-1234));
    assert_eq!(parse_amount_cents("x"), None);
    assert_eq!(parse_amount_cents("-x"), None);
}

#[test]
fn commas_do_not_change_an_amount() {
    assert_eq!(parse_amount_cents("1,234,567.89"), parse_amount_cents("1234567.89"));
    assert_eq!(parse_amount_cents(",12,"), Some(1200));
}

#[test]
fn a_written_date_reads_back() {
    for (y, m, d) in [(2024, 1, 15), (1999, 12, 31), (2000, 2, 29), (5, 6, 7), (9999, 12, 31)] {
        let text = format!("{y:04}{m:02}{d:02}");
        assert_eq!(parse_ofx_date(&text), Some(date(y, m, d)));
    }
}

#[test]
fn a_header_without_tags_changes_nothing() {
    let body = &SAMPLE_OFX[SAMPLE_OFX.find("<OFX>").unwrap()..];
    let with_header = parse_ofx(SAMPLE_OFX).unwrap();
    let without = parse_ofx(body).unwrap();
    assert_eq!(with_header.balance_cents, without.balance_cents);
    assert_eq!(format!("{:?}", with_header.transactions), format!("{:?}", without.transactions));
    let other = parse_ofx(&format!("OFXHEADER:100\nDATA:OFXSGML\n{body}")).unwrap();
    assert_eq!(format!("{:?}", other.transactions), format!("{:?}", without.transactions));
}
