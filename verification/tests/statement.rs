use wise_ofx::amount::{Amount, MANTISSA_LIMIT};
use wise_ofx::currency::Currency;
use wise_ofx::date::{format_date_stamp, format_time_stamp, Date, Timestamp};
use wise_ofx::event::{make_iter, make_iter_at, plain_event, XmlEvent};
use wise_ofx::strings::lex_lt_exec;
use wise_ofx::transaction::{earliest_tx, latest_tx, Transaction};

fn d(year: u32, month: u32, day: u32) -> Date {
    Date { year, month, day }
}

fn ts(year: u32, month: u32, day: u32, hour: u32, minute: u32, second: u32, ms: u32) -> Timestamp {
    Timestamp { date: d(year, month, day), hour, minute, second, millisecond: ms }
}

fn tx(id: &str, date: Date, mantissa: i128, scale: u32) -> Transaction {
    Transaction {
        transfer_wise_id: id.to_string(),
        date,
        amount: Amount { mantissa, scale },
        description: "groceries".to_string(),
        payment_reference: None,
        merchant: None,
    }
}

fn elem_text(events: &[XmlEvent], name: &str) -> Option<String> {
    for (i, e) in events.iter().enumerate() {
        if let XmlEvent::Start(n) = e {
            if n == name {
                if let XmlEvent::Text(t) = &events[i + 1] {
                    return Some(t.clone());
                }
            }
        }
    }
    None
}

fn elem_texts(events: &[XmlEvent], name: &str) -> Vec<String> {
    let mut out = vec![];
    for (i, e) in events.iter().enumerate() {
        if let XmlEvent::Start(n) = e {
            if n == name {
                if let XmlEvent::Text(t) = &events[i + 1] {
                    out.push(t.clone());
                }
            }
        }
    }
    out
}

fn count_starts(events: &[XmlEvent], name: &str) -> usize {
    events
        .iter()
        .filter(|e| matches!(e, XmlEvent::Start(n) if n == name))
        .count()
}

#[test]
fn empty_input() {
    let now = ts(2024, 3, 5, 12, 1, 2, 3);
    let events = make_iter_at("wise001", &vec![], now).unwrap();
    assert_eq!(count_starts(&events, "DTSTART"), 0);
    assert_eq!(count_starts(&events, "DTEND"), 0);
    assert_eq!(count_starts(&events, "STMTTRN"), 0);
    assert_eq!(elem_text(&events, "BALAMT").unwrap(), "0");
    let server = elem_text(&events, "DTSERVER").unwrap();
    assert_eq!(server, "20240305120102.003[+0000:UTC]");
    assert_eq!(elem_text(&events, "DTASOF").unwrap(), server);
    assert_eq!(elem_text(&events, "ACCTID").unwrap(), "wise001");
    assert_eq!(elem_text(&events, "CURDEF").unwrap(), "CAD");
    assert_eq!(elem_text(&events, "LANGUAGE").unwrap(), "ENG");
    assert_eq!(elem_text(&events, "TRNUID").unwrap(), "0");
}

#[test]
fn single_transaction() {
    let now = ts(2024, 3, 5, 12, 0, 0, 0);
    let list = vec![tx("T1", d(2024, 1, 15), 10050, 2)];
    let events = make_iter_at("wise001", &list, now).unwrap();
    assert_eq!(elem_text(&events, "TRNTYPE").unwrap(), "CREDIT");
    assert_eq!(
        elem_text(&events, "DTSTART").unwrap(),
        "20240115000000.000[+0000:UTC]"
    );
    assert_eq!(
        elem_text(&events, "DTEND").unwrap(),
        "20240115000000.000[+0000:UTC]"
    );
    assert_eq!(count_starts(&events, "STMTTRN"), 1);
    assert_eq!(elem_text(&events, "TRNAMT").unwrap(), "100.50");
    assert_eq!(elem_text(&events, "FITID").unwrap(), "T1");
    assert_eq!(elem_text(&events, "BALAMT").unwrap(), "100.50");
    assert_eq!(
        elem_text(&events, "DTASOF").unwrap(),
        "20240115000000.000[+0000:UTC]"
    );
    assert_eq!(
        elem_text(&events, "DTPOSTED").unwrap(),
        "20240115000000.000[+0000:UTC]"
    );
}

#[test]
fn debit_classification() {
    let now = ts(2024, 3, 5, 0, 0, 0, 0);
    let list = vec![
        tx("N1", d(2024, 1, 1), -5000, 2),
        tx("Z1", d(2024, 1, 2), 0, 0),
        tx("P1", d(2024, 1, 3), 1, 2),
    ];
    let events = make_iter_at("a", &list, now).unwrap();
    let types = elem_texts(&events, "TRNTYPE");
    assert_eq!(types, vec!["DEBIT", "DEBIT", "CREDIT"]);
}

#[test]
fn tie_break_determinism() {
    let a = tx("A", d(2024, 2, 1), 100, 2);
    let b = tx("B", d(2024, 2, 1), 200, 2);
    let order1 = vec![a.clone(), b.clone()];
    let order2 = vec![b, a];
    for list in [order1, order2] {
        let e = earliest_tx(&list).unwrap();
        assert_eq!(e.transfer_wise_id, "A");
        let l = latest_tx(&list).unwrap();
        assert_eq!(l.transfer_wise_id, "B");
    }
}

#[test]
fn lexicographic_id_order() {
    assert!(lex_lt_exec("A", "B"));
    assert!(!lex_lt_exec("B", "A"));
    assert!(lex_lt_exec("AB", "AC"));
    assert!(lex_lt_exec("A", "AB"));
    assert!(!lex_lt_exec("AB", "AB"));
    assert!(lex_lt_exec("", "A"));
}

#[test]
fn fallback_fields() {
    let now = ts(2024, 3, 5, 0, 0, 0, 0);
    let mut t = tx("T9", d(2024, 1, 1), 100, 2);
    t.description = "coffee shop".to_string();
    let events = make_iter_at("a", &vec![t], now).unwrap();
    assert_eq!(elem_text(&events, "REFNUM").unwrap(), "T9");
    assert_eq!(
        elem_text(&events, "REFNUM").unwrap(),
        elem_text(&events, "FITID").unwrap()
    );
    assert_eq!(elem_text(&events, "NAME").unwrap(), "coffee shop");

    let mut t2 = tx("T10", d(2024, 1, 1), 100, 2);
    t2.payment_reference = Some("INV-7".to_string());
    t2.merchant = Some("Cafe Nine".to_string());
    let events2 = make_iter_at("a", &vec![t2], now).unwrap();
    assert_eq!(elem_text(&events2, "REFNUM").unwrap(), "INV-7");
    assert_eq!(elem_text(&events2, "NAME").unwrap(), "Cafe Nine");
}

#[test]
fn free_text_is_escaped() {
    let now = ts(2024, 3, 5, 0, 0, 0, 0);
    let mut t = tx("T1", d(2024, 1, 1), 100, 2);
    t.description = "a<b&c".to_string();
    t.payment_reference = Some("r>s".to_string());
    let events = make_iter_at("a", &vec![t], now).unwrap();
    assert_eq!(elem_text(&events, "NAME").unwrap(), "a&lt;b&amp;c");
    assert_eq!(elem_text(&events, "REFNUM").unwrap(), "r&gt;s");
    assert_eq!(elem_text(&events, "FITID").unwrap(), "T1");
}

#[test]
fn decimal_exactness() {
    let now = ts(2024, 3, 5, 0, 0, 0, 0);
    let list = vec![
        tx("T1", d(2024, 1, 1), 10, 2),
        tx("T2", d(2024, 1, 2), 20, 2),
    ];
    let events = make_iter_at("a", &list, now).unwrap();
    assert_eq!(elem_text(&events, "BALAMT").unwrap(), "0.30");
}

#[test]
fn decimal_parity_with_rust_decimal() {
    let cases = ["0.10", "0.20", "-50.00", "100.50", "0", "-0.30", "12345.6789"];
    for c in cases {
        let dec: rust_decimal::Decimal = c.parse().unwrap();
        let a = Amount::new(dec.mantissa(), dec.scale()).unwrap();
        assert_eq!(a.to_decimal_string(), dec.to_string());
    }
    let x: rust_decimal::Decimal = "0.10".parse().unwrap();
    let y: rust_decimal::Decimal = "0.20".parse().unwrap();
    let sum = x + y;
    let a = Amount::new(x.mantissa(), x.scale()).unwrap();
    let b = Amount::new(y.mantissa(), y.scale()).unwrap();
    let t = a.add(b).unwrap();
    assert_eq!(t.to_decimal_string(), sum.to_string());
}

#[test]
fn ordering_independence_of_total() {
    let now = ts(2024, 3, 5, 0, 0, 0, 0);
    let a = tx("A", d(2024, 1, 3), 1050, 2);
    let b = tx("B", d(2024, 1, 1), -25, 1);
    let c = tx("C", d(2024, 1, 2), 7, 0);
    let order1 = vec![a.clone(), b.clone(), c.clone()];
    let order2 = vec![c, b, a];
    let e1 = make_iter_at("a", &order1, now).unwrap();
    let e2 = make_iter_at("a", &order2, now).unwrap();
    assert_eq!(
        elem_text(&e1, "BALAMT").unwrap(),
        elem_text(&e2, "BALAMT").unwrap()
    );
    assert_eq!(elem_texts(&e1, "FITID"), vec!["A", "B", "C"]);
    assert_eq!(elem_texts(&e2, "FITID"), vec!["C", "B", "A"]);
}

#[test]
fn structural_validity() {
    let now = ts(2024, 3, 5, 1, 2, 3, 4);
    let list = vec![
        tx("T1", d(2024, 1, 1), 10, 2),
        tx("T2", d(2024, 1, 2), -20, 1),
    ];
    let events = make_iter_at("acct<1>", &list, now).unwrap();
    let mut stack: Vec<String> = vec![];
    for e in &events {
        match e {
            XmlEvent::Start(n) => stack.push(n.clone()),
            XmlEvent::End(n) => {
                let top = stack.pop().expect("close with no open element");
                assert_eq!(&top, n);
            }
            _ => {}
        }
    }
    assert!(stack.is_empty());
    assert!(matches!(events[0], XmlEvent::Decl));
    assert!(matches!(
        &events[1],
        XmlEvent::PI(content)
            if content
                == r#"OFX OFXHEADER="200" VERSION="203" SECURITY="NONE" OLDFILEUID="NONE" NEWFILEUID="NONE""#
    ));
    assert!(matches!(&events[2], XmlEvent::Start(n) if n == "OFX"));
    assert!(matches!(&events[events.len() - 1], XmlEvent::End(n) if n == "OFX"));
    assert_eq!(count_starts(&events, "STMTTRN"), 2);
}

#[test]
fn total_overflow_is_reported() {
    let now = ts(2024, 3, 5, 0, 0, 0, 0);
    let list = vec![
        tx("T1", d(2024, 1, 1), MANTISSA_LIMIT - 1, 0),
        tx("T2", d(2024, 1, 2), MANTISSA_LIMIT - 1, 0),
    ];
    assert!(make_iter_at("a", &list, now).is_none());
    let big = Amount { mantissa: MANTISSA_LIMIT - 1, scale: 0 };
    assert!(big.add(big).is_none());
}

#[test]
fn amount_rendering() {
    let cases: Vec<(i128, u32, &str)> = vec![
        (0, 0, "0"),
        (-5000, 2, "-50.00"),
        (30, 2, "0.30"),
        (-30, 2, "-0.30"),
        (5, 1, "0.5"),
        (12345, 0, "12345"),
        (1, 3, "0.001"),
    ];
    for (m, s, want) in cases {
        let a = Amount::new(m, s).unwrap();
        assert_eq!(a.to_decimal_string(), want);
    }
}

#[test]
fn amount_new_rejects_out_of_range() {
    assert!(Amount::new(1, 29).is_none());
    assert!(Amount::new(MANTISSA_LIMIT, 0).is_none());
    assert!(Amount::new(-MANTISSA_LIMIT, 0).is_none());
    assert!(Amount::new(MANTISSA_LIMIT - 1, 28).is_some());
}

#[test]
fn date_new_rejects_out_of_range() {
    assert!(Date::new(2024, 0, 1).is_none());
    assert!(Date::new(2024, 13, 1).is_none());
    assert!(Date::new(2024, 1, 0).is_none());
    assert!(Date::new(2024, 1, 32).is_none());
    assert!(Date::new(10000, 1, 1).is_none());
    assert_eq!(Date::new(2024, 2, 29), Some(d(2024, 2, 29)));
}

#[test]
fn timestamp_formats() {
    assert_eq!(
        format_date_stamp(&d(2024, 1, 15)),
        "20240115000000.000[+0000:UTC]"
    );
    assert_eq!(
        format_time_stamp(&ts(987, 12, 31, 23, 59, 58, 999)),
        "09871231235958.999[+0000:UTC]"
    );
}

#[test]
fn plain_event_shape() {
    let evs = plain_event("NOTE", "x&y", false);
    assert!(matches!(&evs[0], XmlEvent::Start(n) if n == "NOTE"));
    assert!(matches!(&evs[1], XmlEvent::Text(t) if t == "x&y"));
    assert!(matches!(&evs[2], XmlEvent::End(n) if n == "NOTE"));
    let esc = plain_event("NOTE", "x&y", true);
    assert!(matches!(&esc[1], XmlEvent::Text(t) if t == "x&amp;y"));
}

#[test]
fn currency_recognition() {
    assert_eq!(Currency::try_from("cad"), Ok(Currency::CAD));
    assert_eq!(Currency::try_from("CAD"), Ok(Currency::CAD));
    assert_eq!(Currency::try_from("Usd"), Ok(Currency::USD));
    let err = Currency::try_from("xyz").unwrap_err();
    assert_eq!(err.code, "xyz");
    assert_eq!(err.message(), "unknown currency xyz");
    assert_eq!(Currency::CAD.code(), "CAD");
    assert_eq!(Currency::USD.code(), "USD");
}

#[test]
fn clock_emission_has_document_shape() {
    let events = make_iter("wise001", &vec![]).unwrap();
    let server = elem_text(&events, "DTSERVER").unwrap();
    assert_eq!(server.len(), 29);
    assert!(server[..14].chars().all(|c| c.is_ascii_digit()));
    assert_eq!(&server[14..15], ".");
    assert_eq!(&server[18..], "[+0000:UTC]");
    assert_eq!(elem_text(&events, "DTASOF").unwrap(), server);
}
