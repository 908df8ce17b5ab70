use vstd::prelude::*;
use crate::amount::{all_wf, amount_text, spec_total, Amount};
use crate::date::{
    date_stamp_text, format_date_stamp, format_time_stamp, now_timestamp, time_stamp_text,
    Timestamp,
};
use crate::strings::{xml_escape, xml_escaped};
use crate::transaction::{
    all_txs_wf, earliest_tx, is_first_earliest, is_first_latest, latest_tx, Transaction,
};
use vstd::string::StringExecFns;

verus! {

/// One structural token of the statement document.
#[derive(Clone, PartialEq, Eq, Debug)]
pub enum XmlEvent {
    /// The XML declaration, version "1.0".
    Decl,
    /// A processing instruction holding the given content.
    PI(String),
    /// An element's opening tag.
    Start(String),
    /// An element's closing tag.
    End(String),
    /// Character data.
    Text(String),
}

/// The ghost image of one event, over character sequences.
#[verifier::ext_equal]
pub enum EvView {
    Decl,
    PI(Seq<char>),
    Start(Seq<char>),
    End(Seq<char>),
    Text(Seq<char>),
}

impl View for XmlEvent {
    type V = EvView;

    open spec fn view(&self) -> EvView {
        match self {
            XmlEvent::Decl => EvView::Decl,
            XmlEvent::PI(s) => EvView::PI(s@),
            XmlEvent::Start(s) => EvView::Start(s@),
            XmlEvent::End(s) => EvView::End(s@),
            XmlEvent::Text(s) => EvView::Text(s@),
        }
    }
}

/// The ghost image of an event list.
pub open spec fn evs(v: Seq<XmlEvent>) -> Seq<EvView> {
    v.map_values(|e: XmlEvent| e@)
}

pub proof fn lemma_evs_concat(a: Seq<XmlEvent>, b: Seq<XmlEvent>)
    ensures
        evs(a + b) == evs(a) + evs(b),
{
    assert(evs(a + b) =~~= evs(a) + evs(b));
}

/// The three tokens of a leaf element holding one text value.
pub open spec fn ev_text(name: Seq<char>, text: Seq<char>) -> Seq<EvView> {
    seq![EvView::Start(name), EvView::Text(text), EvView::End(name)]
}

/// An element wrapped around inner tokens.
pub open spec fn wrapped(name: Seq<char>, inner: Seq<EvView>) -> Seq<EvView> {
    seq![EvView::Start(name)] + inner + seq![EvView::End(name)]
}

/// The success status block the statement carries twice: code 0, severity
/// INFO.
pub open spec fn status_events() -> Seq<EvView> {
    wrapped("STATUS"@, ev_text("CODE"@, "0"@) + ev_text("SEVERITY"@, "INFO"@))
}

/// TRNTYPE text: strictly positive amounts are credits, zero and negative
/// amounts are debits.
pub open spec fn trntype_text(a: Amount) -> Seq<char> {
    if a.mantissa > 0 {
        "CREDIT"@
    } else {
        "DEBIT"@
    }
}

/// The REFNUM source: the payment reference when present, else the id.
pub open spec fn refnum_source(t: Transaction) -> Seq<char> {
    match t.payment_reference {
        Some(r) => r@,
        None => t.transfer_wise_id@,
    }
}

/// The NAME source: the merchant when present, else the description.
pub open spec fn name_source(t: Transaction) -> Seq<char> {
    match t.merchant {
        Some(m) => m@,
        None => t.description@,
    }
}

/// The STMTTRN block of one transaction. The free-text fields are escaped;
/// the id stands verbatim in FITID.
pub open spec fn tx_events(t: Transaction) -> Seq<EvView> {
    wrapped(
        "STMTTRN"@,
        ev_text("TRNTYPE"@, trntype_text(t.amount)) + ev_text("DTPOSTED"@, date_stamp_text(t.date))
            + ev_text("TRNAMT"@, amount_text(t.amount)) + ev_text("FITID"@, t.transfer_wise_id@)
            + ev_text("REFNUM"@, xml_escaped(refnum_source(t))) + ev_text(
            "NAME"@,
            xml_escaped(name_source(t)),
        ),
    )
}

/// The STMTTRN blocks of the whole list, in input order.
pub open spec fn all_tx_events(s: Seq<Transaction>) -> Seq<EvView>
    decreases s.len(),
{
    if s.len() == 0 {
        Seq::empty()
    } else {
        all_tx_events(s.drop_last()) + tx_events(s.last())
    }
}

/// The amounts of the list, in order.
pub open spec fn amounts_of(s: Seq<Transaction>) -> Seq<Amount> {
    s.map_values(|t: Transaction| t.amount)
}

/// The statement's total, the exact sum of all amounts.
pub open spec fn balance_of(s: Seq<Transaction>) -> Option<Amount> {
    spec_total(amounts_of(s))
}

/// The index the earliest-scan lands on.
pub open spec fn earliest_index(s: Seq<Transaction>) -> int {
    choose|i: int| is_first_earliest(s, i)
}

/// The index the latest-scan lands on.
pub open spec fn latest_index(s: Seq<Transaction>) -> int {
    choose|i: int| is_first_latest(s, i)
}

/// The DTSTART/DTEND pair bounding the statement period; absent exactly on
/// an empty list.
pub open spec fn bounds_events(s: Seq<Transaction>) -> Seq<EvView> {
    if s.len() == 0 {
        Seq::empty()
    } else {
        ev_text("DTSTART"@, date_stamp_text(s[earliest_index(s)].date)) + ev_text(
            "DTEND"@,
            date_stamp_text(s[latest_index(s)].date),
        )
    }
}

/// The DTASOF text: the latest transaction's date, or the emission instant
/// when there is none.
pub open spec fn asof_text(s: Seq<Transaction>, now: Timestamp) -> Seq<char> {
    if s.len() == 0 {
        time_stamp_text(now)
    } else {
        date_stamp_text(s[latest_index(s)].date)
    }
}

/// The ledger balance block: the total and the as-of date.
pub open spec fn ledger_events(s: Seq<Transaction>, now: Timestamp) -> Seq<EvView> {
    wrapped(
        "LEDGERBAL"@,
        ev_text(
            "BALAMT"@,
            match balance_of(s) {
                Some(t) => amount_text(t),
                None => Seq::empty(),
            },
        ) + ev_text("DTASOF"@, asof_text(s, now)),
    )
}

/// The whole statement document for an account, a transaction list and an
/// emission instant: declaration and OFX header, sign-on block, then the
/// bank message with the statement period, one block per transaction in
/// input order, and the ledger balance.
pub open spec fn spec_emit(account: Seq<char>, s: Seq<Transaction>, now: Timestamp) -> Seq<
    EvView,
> {
    seq![
        EvView::Decl,
        EvView::PI(
            r#"OFX OFXHEADER="200" VERSION="203" SECURITY="NONE" OLDFILEUID="NONE" NEWFILEUID="NONE""#@,
        ),
    ] + wrapped(
        "OFX"@,
        wrapped(
            "SIGNONMSGSRSV1"@,
            wrapped(
                "SONRS"@,
                status_events() + ev_text("DTSERVER"@, time_stamp_text(now)) + ev_text(
                    "LANGUAGE"@,
                    "ENG"@,
                ),
            ),
        ) + wrapped(
            "BANKMSGSRSV1"@,
            wrapped(
                "STMTTRNRS"@,
                ev_text("TRNUID"@, "0"@) + status_events() + wrapped(
                    "STMTRS"@,
                    ev_text("CURDEF"@, "CAD"@) + wrapped(
                        "BANKACCTFROM"@,
                        ev_text("ACCTID"@, account),
                    ) + wrapped("BANKTRANLIST"@, bounds_events(s) + all_tx_events(s))
                        + ledger_events(s, now),
                ),
            ),
        ),
    )
}

fn push_open(out: &mut Vec<XmlEvent>, name: &str)
    ensures
        evs(final(out)@) == evs(old(out)@) + seq![EvView::Start(name@)],
{
    out.push(XmlEvent::Start(name.to_owned()));
    proof {
        assert(evs(out@) =~~= evs(old(out)@) + seq![EvView::Start(name@)]);
    }
}

fn push_close(out: &mut Vec<XmlEvent>, name: &str)
    ensures
        evs(final(out)@) == evs(old(out)@) + seq![EvView::End(name@)],
{
    out.push(XmlEvent::End(name.to_owned()));
    proof {
        assert(evs(out@) =~~= evs(old(out)@) + seq![EvView::End(name@)]);
    }
}

/// The three events of a leaf element holding one text value, the text
/// escaped on request.
pub fn plain_event(tag_name: &str, val: &str, escape: bool) -> (r: Vec<XmlEvent>)
    ensures
        evs(r@) == ev_text(
            tag_name@,
            if escape {
                xml_escaped(val@)
            } else {
                val@
            },
        ),
{
    let text: String = if escape {
        xml_escape(val)
    } else {
        val.to_owned()
    };
    let mut r: Vec<XmlEvent> = Vec::new();
    r.push(XmlEvent::Start(tag_name.to_owned()));
    r.push(XmlEvent::Text(text));
    r.push(XmlEvent::End(tag_name.to_owned()));
    proof {
        assert(evs(r@) =~~= ev_text(
            tag_name@,
            if escape {
                xml_escaped(val@)
            } else {
                val@
            },
        ));
    }
    r
}

fn append_events(out: &mut Vec<XmlEvent>, chunk: Vec<XmlEvent>)
    ensures
        evs(final(out)@) == evs(old(out)@) + evs(chunk@),
{
    let mut c = chunk;
    let ghost cv = c@;
    out.append(&mut c);
    proof {
        lemma_evs_concat(old(out)@, cv);
    }
}

fn push_leaf(out: &mut Vec<XmlEvent>, name: &str, val: &str, escape: bool)
    ensures
        evs(final(out)@) == evs(old(out)@) + ev_text(
            name@,
            if escape {
                xml_escaped(val@)
            } else {
                val@
            },
        ),
{
    let chunk = plain_event(name, val, escape);
    append_events(out, chunk);
}

fn push_status(out: &mut Vec<XmlEvent>)
    ensures
        evs(final(out)@) == evs(old(out)@) + status_events(),
{
    let ghost g0 = evs(out@);
    push_open(out, "STATUS");
    push_leaf(out, "CODE", "0", false);
    push_leaf(out, "SEVERITY", "INFO", false);
    push_close(out, "STATUS");
    proof {
        assert(evs(out@) =~~= g0 + status_events());
    }
}

impl Transaction {
    /// The STMTTRN block of this transaction, as `tx_events` states it.
    pub fn as_events(&self) -> (r: Vec<XmlEvent>)
        requires
            self.wf(),
        ensures
            evs(r@) == tx_events(*self),
    {
        let mut out: Vec<XmlEvent> = Vec::new();
        push_open(&mut out, "STMTTRN");
        let ttype: &str = if self.amount.mantissa > 0 {
            "CREDIT"
        } else {
            "DEBIT"
        };
        push_leaf(&mut out, "TRNTYPE", ttype, false);
        let posted = format_date_stamp(&self.date);
        push_leaf(&mut out, "DTPOSTED", posted.as_str(), false);
        let amt = self.amount.to_decimal_string();
        push_leaf(&mut out, "TRNAMT", amt.as_str(), false);
        push_leaf(&mut out, "FITID", self.transfer_wise_id.as_str(), false);
        let refnum: &str = match &self.payment_reference {
            Some(r) => r.as_str(),
            None => self.transfer_wise_id.as_str(),
        };
        push_leaf(&mut out, "REFNUM", refnum, true);
        let name: &str = match &self.merchant {
            Some(m) => m.as_str(),
            None => self.description.as_str(),
        };
        push_leaf(&mut out, "NAME", name, true);
        push_close(&mut out, "STMTTRN");
        proof {
            assert(evs(out@) =~~= tx_events(*self));
        }
        out
    }
}

/// A total whose prefix is already undefined is undefined.
proof fn lemma_total_none_extends(s: Seq<Amount>, i: int)
    requires
        0 <= i <= s.len(),
        spec_total(s.take(i)) is None,
    ensures
        spec_total(s) is None,
    decreases s.len() - i,
{
    if i == s.len() {
        assert(s.take(i) =~= s);
    } else {
        assert(s.take(i + 1).drop_last() =~= s.take(i));
        assert(spec_total(s.take(i + 1)) is None);
        lemma_total_none_extends(s, i + 1);
    }
}

/// The fixed run of the document up to and including the opening of
/// BANKTRANLIST: declaration, OFX header, sign-on block and the statement
/// opening.
pub open spec fn preamble_events(account: Seq<char>, now: Timestamp) -> Seq<EvView> {
    seq![
        EvView::Decl,
        EvView::PI(
            r#"OFX OFXHEADER="200" VERSION="203" SECURITY="NONE" OLDFILEUID="NONE" NEWFILEUID="NONE""#@,
        ),
    ] + seq![EvView::Start("OFX"@)] + wrapped(
        "SIGNONMSGSRSV1"@,
        wrapped(
            "SONRS"@,
            status_events() + ev_text("DTSERVER"@, time_stamp_text(now)) + ev_text(
                "LANGUAGE"@,
                "ENG"@,
            ),
        ),
    ) + seq![EvView::Start("BANKMSGSRSV1"@), EvView::Start("STMTTRNRS"@)] + ev_text(
        "TRNUID"@,
        "0"@,
    ) + status_events() + seq![EvView::Start("STMTRS"@)] + ev_text("CURDEF"@, "CAD"@) + wrapped(
        "BANKACCTFROM"@,
        ev_text("ACCTID"@, account),
    ) + seq![EvView::Start("BANKTRANLIST"@)]
}

/// The closing tags that end the document after the ledger block.
pub open spec fn footer_events() -> Seq<EvView> {
    seq![
        EvView::End("STMTRS"@),
        EvView::End("STMTTRNRS"@),
        EvView::End("BANKMSGSRSV1"@),
        EvView::End("OFX"@),
    ]
}

/// The document reads as one flat run: the fixed preamble, the period
/// bounds, the transaction blocks, the list's close, the ledger block and
/// the footer.
pub proof fn lemma_emit_grouping(account: Seq<char>, s: Seq<Transaction>, now: Timestamp)
    ensures
        spec_emit(account, s, now) == preamble_events(account, now) + bounds_events(s)
            + all_tx_events(s) + seq![EvView::End("BANKTRANLIST"@)] + ledger_events(s, now)
            + footer_events(),
{
    assert(spec_emit(account, s, now) =~= preamble_events(account, now) + bounds_events(s)
        + all_tx_events(s) + seq![EvView::End("BANKTRANLIST"@)] + ledger_events(s, now)
        + footer_events());
}

fn push_preamble(out: &mut Vec<XmlEvent>, account: &str, now: &Timestamp)
    ensures
        evs(final(out)@) == evs(old(out)@) + preamble_events(account@, *now),
{
    let ghost g_doc = evs(out@);
    out.push(XmlEvent::Decl);
    out.push(
        XmlEvent::PI(
            String::from_str(
                r#"OFX OFXHEADER="200" VERSION="203" SECURITY="NONE" OLDFILEUID="NONE" NEWFILEUID="NONE""#,
            ),
        ),
    );
    proof {
        assert(evs(out@) =~~= g_doc + seq![
            EvView::Decl,
            EvView::PI(
                r#"OFX OFXHEADER="200" VERSION="203" SECURITY="NONE" OLDFILEUID="NONE" NEWFILEUID="NONE""#@,
            ),
        ]);
    }
    push_open(out, "OFX");
    push_open(out, "SIGNONMSGSRSV1");
    push_open(out, "SONRS");
    push_status(out);
    let server_ts = format_time_stamp(now);
    push_leaf(out, "DTSERVER", server_ts.as_str(), false);
    push_leaf(out, "LANGUAGE", "ENG", false);
    push_close(out, "SONRS");
    push_close(out, "SIGNONMSGSRSV1");
    proof {
        assert(evs(out@) =~= g_doc + seq![
            EvView::Decl,
            EvView::PI(
                r#"OFX OFXHEADER="200" VERSION="203" SECURITY="NONE" OLDFILEUID="NONE" NEWFILEUID="NONE""#@,
            ),
        ] + seq![EvView::Start("OFX"@)] + wrapped(
            "SIGNONMSGSRSV1"@,
            wrapped(
                "SONRS"@,
                status_events() + ev_text("DTSERVER"@, time_stamp_text(*now)) + ev_text(
                    "LANGUAGE"@,
                    "ENG"@,
                ),
            ),
        ));
    }
    let ghost g_signon = evs(out@);
    push_open(out, "BANKMSGSRSV1");
    push_open(out, "STMTTRNRS");
    push_leaf(out, "TRNUID", "0", false);
    push_status(out);
    push_open(out, "STMTRS");
    push_leaf(out, "CURDEF", "CAD", false);
    push_open(out, "BANKACCTFROM");
    push_leaf(out, "ACCTID", account, false);
    push_close(out, "BANKACCTFROM");
    push_open(out, "BANKTRANLIST");
    proof {
        assert(evs(out@) =~= g_signon + seq![
            EvView::Start("BANKMSGSRSV1"@),
            EvView::Start("STMTTRNRS"@),
        ] + ev_text("TRNUID"@, "0"@) + status_events() + seq![EvView::Start("STMTRS"@)] + ev_text(
            "CURDEF"@,
            "CAD"@,
        ) + wrapped("BANKACCTFROM"@, ev_text("ACCTID"@, account@)) + seq![EvView::Start(
            "BANKTRANLIST"@,
        )]);
        assert(evs(out@) =~= g_doc + preamble_events(account@, *now));
    }
}

/// Emits the whole statement document for the given account, transaction
/// list and emission instant. Returns the event list, in document order;
/// `None` exactly when the running total leaves the representable range.
/// The document is well formed - every opened element closes, properly
/// nested - and opens one STMTTRN element per transaction.
pub fn make_iter_at(account: &str, transactions: &Vec<Transaction>, now: Timestamp) -> (r: Option<
    Vec<XmlEvent>,
>)
    requires
        all_txs_wf(transactions@),
        now.wf(),
    ensures
        (r is Some) <==> (balance_of(transactions@) is Some),
        r matches Some(v) ==> evs(v@) == spec_emit(account@, transactions@, now),
        r matches Some(v) ==> run_stack(Seq::empty(), evs(v@)) == Some(Seq::<Seq<char>>::empty()),
        r matches Some(v) ==> count_start(evs(v@), "STMTTRN"@) == transactions@.len(),
{
    let ghost sq = transactions@;
    let mut out: Vec<XmlEvent> = Vec::new();
    push_preamble(&mut out, account, &now);
    proof {
        assert(evs(out@) =~= preamble_events(account@, now));
    }
    let ghost g_list = evs(out@);
    if let Some(t) = earliest_tx(transactions) {
        let d = format_date_stamp(&t.date);
        push_leaf(&mut out, "DTSTART", d.as_str(), false);
        proof {
            let ie = choose|i: int| is_first_earliest(sq, i) && *t == sq[i];
            crate::transaction::lemma_first_earliest_unique(sq, ie, earliest_index(sq));
        }
    }
    let latest_date: Option<crate::date::Date> = match latest_tx(transactions) {
        Some(t) => Some(t.date),
        None => None,
    };
    if let Some(d) = latest_date {
        let dd = format_date_stamp(&d);
        push_leaf(&mut out, "DTEND", dd.as_str(), false);
    }
    proof {
        if sq.len() > 0 {
            let il = choose|i: int| is_first_latest(sq, i) && latest_date == Some(sq[i].date);
            crate::transaction::lemma_first_latest_unique(sq, il, latest_index(sq));
        }
        assert(evs(out@) =~= g_list + bounds_events(sq));
    }
    let ghost g_bounds = evs(out@);
    let mut total = Amount::zero();
    let mut k: usize = 0;
    while k < transactions.len()
        invariant
            all_txs_wf(sq),
            sq == transactions@,
            now.wf(),
            0 <= k <= sq.len(),
            total.wf(),
            Some(total) == spec_total(amounts_of(sq).take(k as int)),
            evs(out@) == g_bounds + all_tx_events(sq.take(k as int)),
            g_bounds == evs(out@).take(g_bounds.len() as int),
        decreases sq.len() - k,
    {
        let tx = &transactions[k];
        proof {
            assert(sq[k as int].wf());
            assert(amounts_of(sq).take(k + 1).drop_last() =~= amounts_of(sq).take(k as int));
            assert(amounts_of(sq).take(k + 1).last() == sq[k as int].amount);
        }
        total = match total.add(tx.amount) {
            Some(t2) => t2,
            None => {
                proof {
                    lemma_total_none_extends(amounts_of(sq), k + 1);
                }
                return None;
            },
        };
        let chunk = tx.as_events();
        append_events(&mut out, chunk);
        proof {
            assert(sq.take(k + 1).drop_last() =~= sq.take(k as int));
            assert(sq.take(k + 1).last() == sq[k as int]);
            assert(all_tx_events(sq.take(k + 1)) == all_tx_events(sq.take(k as int)) + tx_events(
                sq[k as int],
            ));
            assert(evs(out@) =~= g_bounds + all_tx_events(sq.take(k + 1)));
        }
        k = k + 1;
    }
    proof {
        assert(sq.take(sq.len() as int) =~= sq);
        assert(amounts_of(sq).take(sq.len() as int) =~= amounts_of(sq));
    }
    let ghost g_records = evs(out@);
    push_close(&mut out, "BANKTRANLIST");
    push_open(&mut out, "LEDGERBAL");
    let bal = total.to_decimal_string();
    push_leaf(&mut out, "BALAMT", bal.as_str(), false);
    let asof: String = match latest_date {
        Some(d) => format_date_stamp(&d),
        None => format_time_stamp(&now),
    };
    push_leaf(&mut out, "DTASOF", asof.as_str(), false);
    push_close(&mut out, "LEDGERBAL");
    proof {
        assert(evs(out@) =~= g_records + seq![EvView::End("BANKTRANLIST"@)] + ledger_events(
            sq,
            now,
        ));
    }
    let ghost g_ledger = evs(out@);
    push_close(&mut out, "STMTRS");
    push_close(&mut out, "STMTTRNRS");
    push_close(&mut out, "BANKMSGSRSV1");
    push_close(&mut out, "OFX");
    proof {
        assert(evs(out@) =~= g_ledger + footer_events());
        lemma_emit_grouping(account@, sq, now);
        assert(evs(out@) =~= spec_emit(account@, sq, now));
        lemma_emit_well_formed(account@, sq, now);
        lemma_stmttrn_count(account@, sq, now);
    }
    Some(out)
}

/// Emits the statement stamped with the current wall-clock instant: the
/// document is `spec_emit` at some well-formed emission time, well formed
/// and with one STMTTRN element per transaction.
pub fn make_iter(account: &str, transactions: &Vec<Transaction>) -> (r: Option<Vec<XmlEvent>>)
    requires
        all_txs_wf(transactions@),
    ensures
        (r is Some) <==> (balance_of(transactions@) is Some),
        r matches Some(v) ==> exists|now: Timestamp|
            #[trigger] now.wf() && evs(v@) == spec_emit(account@, transactions@, now),
        r matches Some(v) ==> run_stack(Seq::empty(), evs(v@)) == Some(Seq::<Seq<char>>::empty()),
        r matches Some(v) ==> count_start(evs(v@), "STMTTRN"@) == transactions@.len(),
{
    let now = now_timestamp();
    let r = make_iter_at(account, transactions, now);
    proof {
        if r is Some {
            assert(now.wf() && evs(r.unwrap()@) == spec_emit(account@, transactions@, now));
        }
    }
    r
}


/// One event's effect on the stack of open element names: an opening tag
/// pushes, a closing tag pops exactly its own name, anything else leaves the
/// stack alone.
pub open spec fn step_stack(st: Seq<Seq<char>>, e: EvView) -> Option<Seq<Seq<char>>> {
    match e {
        EvView::Start(n) => Some(st.push(n)),
        EvView::End(n) => if st.len() > 0 && st.last() == n {
            Some(st.drop_last())
        } else {
            None
        },
        _ => Some(st),
    }
}

/// Runs a span of events over a stack of open element names; `None` marks a
/// close that does not match the innermost open element.
pub open spec fn run_stack(st: Seq<Seq<char>>, s: Seq<EvView>) -> Option<Seq<Seq<char>>>
    decreases s.len(),
{
    if s.len() == 0 {
        Some(st)
    } else {
        match step_stack(st, s[0]) {
            Some(st2) => run_stack(st2, s.drop_first()),
            None => None,
        }
    }
}

/// Every element opened inside the span closes inside it, properly nested,
/// and nothing already open is touched.
pub open spec fn balanced(s: Seq<EvView>) -> bool {
    forall|st: Seq<Seq<char>>| #[trigger] run_stack(st, s) == Some(st)
}

pub proof fn lemma_run_concat(st: Seq<Seq<char>>, a: Seq<EvView>, b: Seq<EvView>)
    ensures
        run_stack(st, a + b) == (match run_stack(st, a) {
            Some(m) => run_stack(m, b),
            None => None,
        }),
    decreases a.len(),
{
    if a.len() == 0 {
        assert(a + b =~= b);
    } else {
        assert((a + b)[0] == a[0]);
        assert((a + b).drop_first() =~= a.drop_first() + b);
        match step_stack(st, a[0]) {
            Some(st2) => {
                lemma_run_concat(st2, a.drop_first(), b);
            },
            None => {},
        }
    }
}

pub proof fn lemma_balanced_concat(a: Seq<EvView>, b: Seq<EvView>)
    requires
        balanced(a),
        balanced(b),
    ensures
        balanced(a + b),
{
    assert forall|st: Seq<Seq<char>>| #[trigger] run_stack(st, a + b) == Some(st) by {
        lemma_run_concat(st, a, b);
    }
}

pub proof fn lemma_text_balanced(name: Seq<char>, text: Seq<char>)
    ensures
        balanced(ev_text(name, text)),
{
    let s = ev_text(name, text);
    assert forall|st: Seq<Seq<char>>| #[trigger] run_stack(st, s) == Some(st) by {
        let st1 = st.push(name);
        let s1 = s.drop_first();
        let s2 = s1.drop_first();
        assert(s1 =~= seq![EvView::Text(text), EvView::End(name)]);
        assert(s2 =~= seq![EvView::End(name)]);
        assert(st1.last() == name);
        assert(st1.drop_last() =~= st);
        assert(s2.drop_first() =~= Seq::<EvView>::empty());
        assert(run_stack(st, s) == run_stack(st1, s1));
        assert(run_stack(st1, s1) == run_stack(st1, s2));
        assert(run_stack(st1, s2) == run_stack(st, Seq::<EvView>::empty()));
    }
}

pub proof fn lemma_wrapped_balanced(name: Seq<char>, inner: Seq<EvView>)
    requires
        balanced(inner),
    ensures
        balanced(wrapped(name, inner)),
{
    let w = wrapped(name, inner);
    let opening = seq![EvView::Start(name)];
    let closing = seq![EvView::End(name)];
    assert forall|st: Seq<Seq<char>>| #[trigger] run_stack(st, w) == Some(st) by {
        assert(w =~= opening + (inner + closing));
        lemma_run_concat(st, opening, inner + closing);
        assert(opening.drop_first() =~= Seq::<EvView>::empty());
        assert(opening[0] == EvView::Start(name));
        assert(step_stack(st, opening[0]) == Some(st.push(name)));
        assert(run_stack(st, opening) == run_stack(st.push(name), opening.drop_first()));
        assert(run_stack(st.push(name), opening.drop_first()) == Some(st.push(name)));
        lemma_run_concat(st.push(name), inner, closing);
        assert(run_stack(st.push(name), inner) == Some(st.push(name)));
        assert(st.push(name).last() == name);
        assert(st.push(name).drop_last() =~= st);
        assert(closing.drop_first() =~= Seq::<EvView>::empty());
        assert(closing[0] == EvView::End(name));
        assert(step_stack(st.push(name), closing[0]) == Some(st));
        assert(run_stack(st.push(name), closing) == run_stack(st, closing.drop_first()));
        assert(run_stack(st, closing.drop_first()) == Some(st));
    }
}

proof fn lemma_single_balanced(e: EvView)
    requires
        !(e is Start),
        !(e is End),
    ensures
        balanced(seq![e]),
{
    let s = seq![e];
    assert forall|st: Seq<Seq<char>>| #[trigger] run_stack(st, s) == Some(st) by {
        assert(s.drop_first() =~= Seq::<EvView>::empty());
        assert(step_stack(st, e) == Some(st));
        assert(run_stack(st, s) == run_stack(st, Seq::<EvView>::empty()));
    }
}

proof fn lemma_status_balanced()
    ensures
        balanced(status_events()),
{
    lemma_text_balanced("CODE"@, "0"@);
    lemma_text_balanced("SEVERITY"@, "INFO"@);
    lemma_balanced_concat(ev_text("CODE"@, "0"@), ev_text("SEVERITY"@, "INFO"@));
    lemma_wrapped_balanced("STATUS"@, ev_text("CODE"@, "0"@) + ev_text("SEVERITY"@, "INFO"@));
}

pub proof fn lemma_tx_events_balanced(t: Transaction)
    ensures
        balanced(tx_events(t)),
{
    let a1 = ev_text("TRNTYPE"@, trntype_text(t.amount));
    let a2 = ev_text("DTPOSTED"@, date_stamp_text(t.date));
    let a3 = ev_text("TRNAMT"@, amount_text(t.amount));
    let a4 = ev_text("FITID"@, t.transfer_wise_id@);
    let a5 = ev_text("REFNUM"@, xml_escaped(refnum_source(t)));
    let a6 = ev_text("NAME"@, xml_escaped(name_source(t)));
    lemma_text_balanced("TRNTYPE"@, trntype_text(t.amount));
    lemma_text_balanced("DTPOSTED"@, date_stamp_text(t.date));
    lemma_text_balanced("TRNAMT"@, amount_text(t.amount));
    lemma_text_balanced("FITID"@, t.transfer_wise_id@);
    lemma_text_balanced("REFNUM"@, xml_escaped(refnum_source(t)));
    lemma_text_balanced("NAME"@, xml_escaped(name_source(t)));
    lemma_balanced_concat(a1, a2);
    lemma_balanced_concat(a1 + a2, a3);
    lemma_balanced_concat(a1 + a2 + a3, a4);
    lemma_balanced_concat(a1 + a2 + a3 + a4, a5);
    lemma_balanced_concat(a1 + a2 + a3 + a4 + a5, a6);
    lemma_wrapped_balanced("STMTTRN"@, a1 + a2 + a3 + a4 + a5 + a6);
}

pub proof fn lemma_all_tx_events_balanced(s: Seq<Transaction>)
    ensures
        balanced(all_tx_events(s)),
    decreases s.len(),
{
    if s.len() == 0 {
        assert forall|st: Seq<Seq<char>>|
            #[trigger] run_stack(st, all_tx_events(s)) == Some(st) by {}
    } else {
        lemma_all_tx_events_balanced(s.drop_last());
        lemma_tx_events_balanced(s.last());
        lemma_balanced_concat(all_tx_events(s.drop_last()), tx_events(s.last()));
    }
}

proof fn lemma_bounds_balanced(s: Seq<Transaction>)
    ensures
        balanced(bounds_events(s)),
{
    if s.len() == 0 {
        assert forall|st: Seq<Seq<char>>|
            #[trigger] run_stack(st, bounds_events(s)) == Some(st) by {}
    } else {
        let d1 = ev_text("DTSTART"@, date_stamp_text(s[earliest_index(s)].date));
        let d2 = ev_text("DTEND"@, date_stamp_text(s[latest_index(s)].date));
        lemma_text_balanced("DTSTART"@, date_stamp_text(s[earliest_index(s)].date));
        lemma_text_balanced("DTEND"@, date_stamp_text(s[latest_index(s)].date));
        lemma_balanced_concat(d1, d2);
    }
}

proof fn lemma_ledger_balanced(s: Seq<Transaction>, now: Timestamp)
    ensures
        balanced(ledger_events(s, now)),
{
    let bal = match balance_of(s) {
        Some(t) => amount_text(t),
        None => Seq::<char>::empty(),
    };
    let b1 = ev_text("BALAMT"@, bal);
    let b2 = ev_text("DTASOF"@, asof_text(s, now));
    lemma_text_balanced("BALAMT"@, bal);
    lemma_text_balanced("DTASOF"@, asof_text(s, now));
    lemma_balanced_concat(b1, b2);
    lemma_wrapped_balanced("LEDGERBAL"@, b1 + b2);
}

/// Structural validity of the emitted document: for any account, any
/// transaction list and any emission instant, every opened element has
/// exactly one matching close in proper nesting, and at the end of the
/// document no element stays open.
pub proof fn lemma_emit_well_formed(account: Seq<char>, s: Seq<Transaction>, now: Timestamp)
    ensures
        balanced(spec_emit(account, s, now)),
        run_stack(Seq::empty(), spec_emit(account, s, now)) == Some(Seq::<Seq<char>>::empty()),
{
    let pi = EvView::PI(
        r#"OFX OFXHEADER="200" VERSION="203" SECURITY="NONE" OLDFILEUID="NONE" NEWFILEUID="NONE""#@,
    );
    lemma_status_balanced();
    lemma_text_balanced("DTSERVER"@, time_stamp_text(now));
    lemma_text_balanced("LANGUAGE"@, "ENG"@);
    let sonrs_inner = status_events() + ev_text("DTSERVER"@, time_stamp_text(now)) + ev_text(
        "LANGUAGE"@,
        "ENG"@,
    );
    lemma_balanced_concat(status_events(), ev_text("DTSERVER"@, time_stamp_text(now)));
    lemma_balanced_concat(
        status_events() + ev_text("DTSERVER"@, time_stamp_text(now)),
        ev_text("LANGUAGE"@, "ENG"@),
    );
    lemma_wrapped_balanced("SONRS"@, sonrs_inner);
    lemma_wrapped_balanced("SIGNONMSGSRSV1"@, wrapped("SONRS"@, sonrs_inner));
    let signon = wrapped("SIGNONMSGSRSV1"@, wrapped("SONRS"@, sonrs_inner));

    lemma_text_balanced("CURDEF"@, "CAD"@);
    lemma_text_balanced("ACCTID"@, account);
    lemma_wrapped_balanced("BANKACCTFROM"@, ev_text("ACCTID"@, account));
    let acct = wrapped("BANKACCTFROM"@, ev_text("ACCTID"@, account));
    lemma_bounds_balanced(s);
    lemma_all_tx_events_balanced(s);
    lemma_balanced_concat(bounds_events(s), all_tx_events(s));
    lemma_wrapped_balanced("BANKTRANLIST"@, bounds_events(s) + all_tx_events(s));
    let list = wrapped("BANKTRANLIST"@, bounds_events(s) + all_tx_events(s));
    lemma_ledger_balanced(s, now);
    let stmtrs_inner = ev_text("CURDEF"@, "CAD"@) + acct + list + ledger_events(s, now);
    lemma_balanced_concat(ev_text("CURDEF"@, "CAD"@), acct);
    lemma_balanced_concat(ev_text("CURDEF"@, "CAD"@) + acct, list);
    lemma_balanced_concat(ev_text("CURDEF"@, "CAD"@) + acct + list, ledger_events(s, now));
    lemma_wrapped_balanced("STMTRS"@, stmtrs_inner);

    lemma_text_balanced("TRNUID"@, "0"@);
    let trnrs_inner = ev_text("TRNUID"@, "0"@) + status_events() + wrapped(
        "STMTRS"@,
        stmtrs_inner,
    );
    lemma_balanced_concat(ev_text("TRNUID"@, "0"@), status_events());
    lemma_balanced_concat(
        ev_text("TRNUID"@, "0"@) + status_events(),
        wrapped("STMTRS"@, stmtrs_inner),
    );
    lemma_wrapped_balanced("STMTTRNRS"@, trnrs_inner);
    lemma_wrapped_balanced("BANKMSGSRSV1"@, wrapped("STMTTRNRS"@, trnrs_inner));
    let bank = wrapped("BANKMSGSRSV1"@, wrapped("STMTTRNRS"@, trnrs_inner));

    lemma_balanced_concat(signon, bank);
    lemma_wrapped_balanced("OFX"@, signon + bank);
    lemma_single_balanced(EvView::Decl);
    lemma_single_balanced(pi);
    lemma_balanced_concat(seq![EvView::Decl], seq![pi]);
    assert(seq![EvView::Decl, pi] =~= seq![EvView::Decl] + seq![pi]);
    lemma_balanced_concat(seq![EvView::Decl, pi], wrapped("OFX"@, signon + bank));
    assert(balanced(spec_emit(account, s, now)));
}

/// A transaction without a payment reference falls back to its id: REFNUM
/// carries the escaped id, and when the id holds no markup-significant
/// character that is letter for letter the FITID text.
pub proof fn lemma_refnum_fallback(t: Transaction)
    requires
        t.payment_reference is None,
    ensures
        refnum_source(t) == t.transfer_wise_id@,
        (forall|i: int|
            0 <= i < t.transfer_wise_id@.len() ==> t.transfer_wise_id@[i] != '&'
                && t.transfer_wise_id@[i] != '<' && t.transfer_wise_id@[i] != '>') ==> xml_escaped(
            refnum_source(t),
        ) == t.transfer_wise_id@,
{
    if forall|i: int|
        0 <= i < t.transfer_wise_id@.len() ==> t.transfer_wise_id@[i] != '&'
            && t.transfer_wise_id@[i] != '<' && t.transfer_wise_id@[i] != '>' {
        crate::strings::lemma_escape_identity(t.transfer_wise_id@);
    }
}

/// A transaction without a merchant falls back to its description: NAME
/// carries the escaped description, and when the description holds no
/// markup-significant character that is the description letter for letter.
pub proof fn lemma_name_fallback(t: Transaction)
    requires
        t.merchant is None,
    ensures
        name_source(t) == t.description@,
        (forall|i: int|
            0 <= i < t.description@.len() ==> t.description@[i] != '&' && t.description@[i] != '<'
                && t.description@[i] != '>') ==> xml_escaped(name_source(t)) == t.description@,
{
    if forall|i: int|
        0 <= i < t.description@.len() ==> t.description@[i] != '&' && t.description@[i] != '<'
            && t.description@[i] != '>' {
        crate::strings::lemma_escape_identity(t.description@);
    }
}

/// Classification of amounts: a strictly positive amount renders CREDIT,
/// zero and negative amounts render DEBIT, and the two texts differ.
pub proof fn lemma_trntype_classification(a: Amount)
    ensures
        a.mantissa > 0 ==> trntype_text(a) == "CREDIT"@,
        a.mantissa <= 0 ==> trntype_text(a) == "DEBIT"@,
        "CREDIT"@ != "DEBIT"@,
{
    reveal_strlit("CREDIT");
    reveal_strlit("DEBIT");
    assert("CREDIT"@.len() != "DEBIT"@.len());
}

/// The empty statement: no period bounds, no transaction blocks, a zero
/// total rendered "0", and an as-of date equal to the emission instant.
pub proof fn lemma_empty_statement(now: Timestamp)
    ensures
        bounds_events(Seq::empty()) == Seq::<EvView>::empty(),
        all_tx_events(Seq::empty()) == Seq::<EvView>::empty(),
        balance_of(Seq::empty()) == Some(Amount { mantissa: 0, scale: 0 }),
        asof_text(Seq::empty(), now) == time_stamp_text(now),
        amount_text(Amount { mantissa: 0, scale: 0 }) == "0"@,
{
    assert(amounts_of(Seq::empty()) =~= Seq::<Amount>::empty());
    reveal_strlit("0");
    assert(amount_text(Amount { mantissa: 0, scale: 0 }) =~= "0"@);
}

/// Mapping a permutation to its amounts yields a permutation of the
/// amounts.
proof fn lemma_amounts_multiset(s1: Seq<Transaction>, s2: Seq<Transaction>)
    requires
        s1.to_multiset() == s2.to_multiset(),
    ensures
        amounts_of(s1).to_multiset() == amounts_of(s2).to_multiset(),
    decreases s1.len(),
{
    broadcast use vstd::seq_lib::group_to_multiset_ensures;

    assert(s1.len() == s1.to_multiset().len());
    assert(s2.len() == s2.to_multiset().len());
    if s1.len() == 0 {
        assert(amounts_of(s1) =~= Seq::<Amount>::empty());
        assert(amounts_of(s2) =~= Seq::<Amount>::empty());
    } else {
        let x = s1.last();
        assert(s1.contains(x));
        assert(s1.to_multiset().count(x) > 0);
        assert(s2.to_multiset().count(x) > 0);
        assert(s2.contains(x));
        let j = choose|j: int| 0 <= j < s2.len() && s2[j] == x;
        assert(s1.drop_last() =~= s1.remove(s1.len() - 1));
        assert(s1.remove(s1.len() - 1).to_multiset() == s1.to_multiset().remove(x));
        assert(s2.remove(j).to_multiset() == s2.to_multiset().remove(x));
        lemma_amounts_multiset(s1.drop_last(), s2.remove(j));
        assert(amounts_of(s1.drop_last()) =~= amounts_of(s1).drop_last());
        assert(amounts_of(s2.remove(j)) =~= amounts_of(s2).remove(j));
        assert(amounts_of(s1) =~= amounts_of(s1).drop_last().push(x.amount));
        assert(amounts_of(s1).drop_last().push(x.amount).to_multiset() == amounts_of(
            s1,
        ).drop_last().to_multiset().insert(x.amount));
        assert(amounts_of(s2).remove(j).to_multiset() == amounts_of(s2).to_multiset().remove(
            amounts_of(s2)[j],
        ));
        assert(amounts_of(s2)[j] == x.amount);
        assert(amounts_of(s2).contains(amounts_of(s2)[j]));
        assert(amounts_of(s2).to_multiset().count(x.amount) > 0);
        assert(amounts_of(s1).to_multiset() =~= amounts_of(s2).to_multiset().remove(
            x.amount,
        ).insert(x.amount));
        assert(amounts_of(s2).to_multiset().remove(x.amount).insert(x.amount) =~= amounts_of(
            s2,
        ).to_multiset());
    }
}

/// Reordering the input leaves the ledger total untouched: two transaction
/// lists that are permutations of one another, each summing without
/// overflow, produce the very same BALAMT amount - coefficient and scale,
/// hence the same rendered figure - while the STMTTRN blocks follow each
/// input's own order, as `spec_emit` lays them out.
pub proof fn lemma_balance_permutation(s1: Seq<Transaction>, s2: Seq<Transaction>)
    requires
        all_txs_wf(s1),
        s1.to_multiset() == s2.to_multiset(),
        balance_of(s1) is Some,
        balance_of(s2) is Some,
    ensures
        balance_of(s1) == balance_of(s2),
{
    lemma_amounts_multiset(s1, s2);
    assert(all_wf(amounts_of(s1))) by {
        assert forall|i: int| 0 <= i < amounts_of(s1).len() implies amounts_of(s1)[i].wf() by {
            assert(s1[i].wf());
        }
    }
    crate::amount::lemma_total_permutation(amounts_of(s1), amounts_of(s2));
}


/// How many opening tags with the given name a run of events holds.
pub open spec fn count_start(s: Seq<EvView>, name: Seq<char>) -> int
    decreases s.len(),
{
    if s.len() == 0 {
        0
    } else {
        count_start(s.drop_last(), name) + (if s.last() == EvView::Start(name) {
            1int
        } else {
            0int
        })
    }
}

pub proof fn lemma_count_start_concat(a: Seq<EvView>, b: Seq<EvView>, name: Seq<char>)
    ensures
        count_start(a + b, name) == count_start(a, name) + count_start(b, name),
    decreases b.len(),
{
    if b.len() == 0 {
        assert(a + b =~= a);
    } else {
        assert((a + b).drop_last() =~= a + b.drop_last());
        assert((a + b).last() == b.last());
        lemma_count_start_concat(a, b.drop_last(), name);
    }
}

proof fn lemma_count_start_single(e: EvView, name: Seq<char>)
    ensures
        count_start(seq![e], name) == (if e == EvView::Start(name) {
            1int
        } else {
            0int
        }),
{
    assert(seq![e].drop_last() =~= Seq::<EvView>::empty());
    assert(seq![e].last() == e);
    assert(count_start(seq![e].drop_last(), name) == 0);
}

proof fn lemma_count_start_text(n: Seq<char>, t: Seq<char>, name: Seq<char>)
    ensures
        count_start(ev_text(n, t), name) == (if n == name {
            1int
        } else {
            0int
        }),
{
    let s = ev_text(n, t);
    let s1 = s.drop_last();
    let s2 = s1.drop_last();
    assert(s1 =~= seq![EvView::Start(n), EvView::Text(t)]);
    assert(s2 =~= seq![EvView::Start(n)]);
    assert(s2.drop_last() =~= Seq::<EvView>::empty());
    assert(s.last() == EvView::End(n));
    assert(s1.last() == EvView::Text(t));
    assert(s2.last() == EvView::Start(n));
    assert(count_start(s2.drop_last(), name) == 0);
    assert(count_start(s2, name) == (if n == name {
        1int
    } else {
        0int
    }));
    assert(count_start(s1, name) == count_start(s2, name));
    assert(count_start(s, name) == count_start(s1, name));
}

proof fn lemma_count_start_wrapped(n: Seq<char>, inner: Seq<EvView>, name: Seq<char>)
    ensures
        count_start(wrapped(n, inner), name) == count_start(inner, name) + (if n == name {
            1int
        } else {
            0int
        }),
{
    let opening = seq![EvView::Start(n)];
    let closing = seq![EvView::End(n)];
    assert(wrapped(n, inner) =~= opening + inner + closing);
    lemma_count_start_concat(opening + inner, closing, name);
    lemma_count_start_concat(opening, inner, name);
    lemma_count_start_single(EvView::Start(n), name);
    lemma_count_start_single(EvView::End(n), name);
}

proof fn lemma_count_status(name: Seq<char>)
    requires
        name != "STATUS"@,
        name != "CODE"@,
        name != "SEVERITY"@,
    ensures
        count_start(status_events(), name) == 0,
{
    lemma_count_start_text("CODE"@, "0"@, name);
    lemma_count_start_text("SEVERITY"@, "INFO"@, name);
    lemma_count_start_concat(ev_text("CODE"@, "0"@), ev_text("SEVERITY"@, "INFO"@), name);
    lemma_count_start_wrapped(
        "STATUS"@,
        ev_text("CODE"@, "0"@) + ev_text("SEVERITY"@, "INFO"@),
        name,
    );
}

/// One transaction's block opens STMTTRN exactly once.
proof fn lemma_count_tx_events(t: Transaction)
    ensures
        count_start(tx_events(t), "STMTTRN"@) == 1,
{
    reveal_strlit("STMTTRN");
    reveal_strlit("TRNTYPE");
    reveal_strlit("DTPOSTED");
    reveal_strlit("TRNAMT");
    reveal_strlit("FITID");
    reveal_strlit("REFNUM");
    reveal_strlit("NAME");
    let name = "STMTTRN"@;
    let a1 = ev_text("TRNTYPE"@, trntype_text(t.amount));
    let a2 = ev_text("DTPOSTED"@, date_stamp_text(t.date));
    let a3 = ev_text("TRNAMT"@, amount_text(t.amount));
    let a4 = ev_text("FITID"@, t.transfer_wise_id@);
    let a5 = ev_text("REFNUM"@, xml_escaped(refnum_source(t)));
    let a6 = ev_text("NAME"@, xml_escaped(name_source(t)));
    assert("STMTTRN"@.len() == 7);
    assert("TRNTYPE"@.len() == 7);
    assert("DTPOSTED"@.len() == 8);
    assert("TRNAMT"@.len() == 6);
    assert("FITID"@.len() == 5);
    assert("REFNUM"@.len() == 6);
    assert("NAME"@.len() == 4);
    assert("TRNTYPE"@[0] != "STMTTRN"@[0]);
    assert("TRNTYPE"@ != "STMTTRN"@);
    lemma_count_start_text("TRNTYPE"@, trntype_text(t.amount), name);
    lemma_count_start_text("DTPOSTED"@, date_stamp_text(t.date), name);
    lemma_count_start_text("TRNAMT"@, amount_text(t.amount), name);
    lemma_count_start_text("FITID"@, t.transfer_wise_id@, name);
    lemma_count_start_text("REFNUM"@, xml_escaped(refnum_source(t)), name);
    lemma_count_start_text("NAME"@, xml_escaped(name_source(t)), name);
    lemma_count_start_concat(a1, a2, name);
    lemma_count_start_concat(a1 + a2, a3, name);
    lemma_count_start_concat(a1 + a2 + a3, a4, name);
    lemma_count_start_concat(a1 + a2 + a3 + a4, a5, name);
    lemma_count_start_concat(a1 + a2 + a3 + a4 + a5, a6, name);
    lemma_count_start_wrapped("STMTTRN"@, a1 + a2 + a3 + a4 + a5 + a6, name);
}

/// The record run opens STMTTRN once per transaction.
pub proof fn lemma_count_all_tx_events(s: Seq<Transaction>)
    ensures
        count_start(all_tx_events(s), "STMTTRN"@) == s.len(),
    decreases s.len(),
{
    if s.len() == 0 {
    } else {
        lemma_count_all_tx_events(s.drop_last());
        lemma_count_tx_events(s.last());
        lemma_count_start_concat(all_tx_events(s.drop_last()), tx_events(s.last()), "STMTTRN"@);
    }
}

proof fn lemma_count_preamble(account: Seq<char>, now: Timestamp)
    ensures
        count_start(preamble_events(account, now), "STMTTRN"@) == 0,
{
    reveal_strlit("STMTTRN");
    reveal_strlit("OFX");
    reveal_strlit("SIGNONMSGSRSV1");
    reveal_strlit("SONRS");
    reveal_strlit("STATUS");
    reveal_strlit("CODE");
    reveal_strlit("SEVERITY");
    reveal_strlit("DTSERVER");
    reveal_strlit("LANGUAGE");
    reveal_strlit("BANKMSGSRSV1");
    reveal_strlit("STMTTRNRS");
    reveal_strlit("TRNUID");
    reveal_strlit("STMTRS");
    reveal_strlit("CURDEF");
    reveal_strlit("BANKACCTFROM");
    reveal_strlit("ACCTID");
    reveal_strlit("BANKTRANLIST");
    assert("STMTTRN"@.len() == 7);
    assert("OFX"@.len() == 3);
    assert("SIGNONMSGSRSV1"@.len() == 14);
    assert("SONRS"@.len() == 5);
    assert("STATUS"@.len() == 6);
    assert("CODE"@.len() == 4);
    assert("SEVERITY"@.len() == 8);
    assert("DTSERVER"@.len() == 8);
    assert("LANGUAGE"@.len() == 8);
    assert("BANKMSGSRSV1"@.len() == 12);
    assert("STMTTRNRS"@.len() == 9);
    assert("TRNUID"@.len() == 6);
    assert("STMTRS"@.len() == 6);
    assert("CURDEF"@.len() == 6);
    assert("BANKACCTFROM"@.len() == 12);
    assert("ACCTID"@.len() == 6);
    assert("BANKTRANLIST"@.len() == 12);
    let name = "STMTTRN"@;
    let pi = EvView::PI(
        r#"OFX OFXHEADER="200" VERSION="203" SECURITY="NONE" OLDFILEUID="NONE" NEWFILEUID="NONE""#@,
    );
    let a = seq![EvView::Decl, pi];
    assert(a =~= seq![EvView::Decl] + seq![pi]);
    lemma_count_start_single(EvView::Decl, name);
    lemma_count_start_single(pi, name);
    lemma_count_start_concat(seq![EvView::Decl], seq![pi], name);
    let b = seq![EvView::Start("OFX"@)];
    lemma_count_start_single(EvView::Start("OFX"@), name);
    let sonrs_inner = status_events() + ev_text("DTSERVER"@, time_stamp_text(now)) + ev_text(
        "LANGUAGE"@,
        "ENG"@,
    );
    lemma_count_status(name);
    lemma_count_start_text("DTSERVER"@, time_stamp_text(now), name);
    lemma_count_start_text("LANGUAGE"@, "ENG"@, name);
    lemma_count_start_concat(status_events(), ev_text("DTSERVER"@, time_stamp_text(now)), name);
    lemma_count_start_concat(
        status_events() + ev_text("DTSERVER"@, time_stamp_text(now)),
        ev_text("LANGUAGE"@, "ENG"@),
        name,
    );
    lemma_count_start_wrapped("SONRS"@, sonrs_inner, name);
    lemma_count_start_wrapped("SIGNONMSGSRSV1"@, wrapped("SONRS"@, sonrs_inner), name);
    let c = wrapped("SIGNONMSGSRSV1"@, wrapped("SONRS"@, sonrs_inner));
    let d = seq![EvView::Start("BANKMSGSRSV1"@), EvView::Start("STMTTRNRS"@)];
    assert(d =~= seq![EvView::Start("BANKMSGSRSV1"@)] + seq![EvView::Start("STMTTRNRS"@)]);
    lemma_count_start_single(EvView::Start("BANKMSGSRSV1"@), name);
    lemma_count_start_single(EvView::Start("STMTTRNRS"@), name);
    lemma_count_start_concat(
        seq![EvView::Start("BANKMSGSRSV1"@)],
        seq![EvView::Start("STMTTRNRS"@)],
        name,
    );
    let e = ev_text("TRNUID"@, "0"@);
    lemma_count_start_text("TRNUID"@, "0"@, name);
    let g = seq![EvView::Start("STMTRS"@)];
    lemma_count_start_single(EvView::Start("STMTRS"@), name);
    let h = ev_text("CURDEF"@, "CAD"@);
    lemma_count_start_text("CURDEF"@, "CAD"@, name);
    lemma_count_start_text("ACCTID"@, account, name);
    lemma_count_start_wrapped("BANKACCTFROM"@, ev_text("ACCTID"@, account), name);
    let i = wrapped("BANKACCTFROM"@, ev_text("ACCTID"@, account));
    let j = seq![EvView::Start("BANKTRANLIST"@)];
    lemma_count_start_single(EvView::Start("BANKTRANLIST"@), name);
    lemma_count_start_concat(a, b, name);
    lemma_count_start_concat(a + b, c, name);
    lemma_count_start_concat(a + b + c, d, name);
    lemma_count_start_concat(a + b + c + d, e, name);
    lemma_count_start_concat(a + b + c + d + e, status_events(), name);
    lemma_count_start_concat(a + b + c + d + e + status_events(), g, name);
    lemma_count_start_concat(a + b + c + d + e + status_events() + g, h, name);
    lemma_count_start_concat(a + b + c + d + e + status_events() + g + h, i, name);
    lemma_count_start_concat(a + b + c + d + e + status_events() + g + h + i, j, name);
}

proof fn lemma_count_bounds(s: Seq<Transaction>)
    ensures
        count_start(bounds_events(s), "STMTTRN"@) == 0,
{
    reveal_strlit("STMTTRN");
    reveal_strlit("DTSTART");
    reveal_strlit("DTEND");
    if s.len() > 0 {
        assert("STMTTRN"@.len() == 7);
        assert("DTSTART"@.len() == 7);
        assert("DTEND"@.len() == 5);
        assert("DTSTART"@[0] != "STMTTRN"@[0]);
        assert("DTSTART"@ != "STMTTRN"@);
        let d1 = ev_text("DTSTART"@, date_stamp_text(s[earliest_index(s)].date));
        let d2 = ev_text("DTEND"@, date_stamp_text(s[latest_index(s)].date));
        lemma_count_start_text("DTSTART"@, date_stamp_text(s[earliest_index(s)].date), "STMTTRN"@);
        lemma_count_start_text("DTEND"@, date_stamp_text(s[latest_index(s)].date), "STMTTRN"@);
        lemma_count_start_concat(d1, d2, "STMTTRN"@);
    }
}

proof fn lemma_count_ledger(s: Seq<Transaction>, now: Timestamp)
    ensures
        count_start(ledger_events(s, now), "STMTTRN"@) == 0,
{
    reveal_strlit("STMTTRN");
    reveal_strlit("LEDGERBAL");
    reveal_strlit("BALAMT");
    reveal_strlit("DTASOF");
    assert("STMTTRN"@.len() == 7);
    assert("LEDGERBAL"@.len() == 9);
    assert("BALAMT"@.len() == 6);
    assert("DTASOF"@.len() == 6);
    let bal = match balance_of(s) {
        Some(t) => amount_text(t),
        None => Seq::<char>::empty(),
    };
    let b1 = ev_text("BALAMT"@, bal);
    let b2 = ev_text("DTASOF"@, asof_text(s, now));
    lemma_count_start_text("BALAMT"@, bal, "STMTTRN"@);
    lemma_count_start_text("DTASOF"@, asof_text(s, now), "STMTTRN"@);
    lemma_count_start_concat(b1, b2, "STMTTRN"@);
    lemma_count_start_wrapped("LEDGERBAL"@, b1 + b2, "STMTTRN"@);
}

proof fn lemma_count_footer()
    ensures
        count_start(footer_events(), "STMTTRN"@) == 0,
{
    let e1 = EvView::End("STMTRS"@);
    let e2 = EvView::End("STMTTRNRS"@);
    let e3 = EvView::End("BANKMSGSRSV1"@);
    let e4 = EvView::End("OFX"@);
    assert(footer_events() =~= seq![e1] + seq![e2] + seq![e3] + seq![e4]);
    lemma_count_start_single(e1, "STMTTRN"@);
    lemma_count_start_single(e2, "STMTTRN"@);
    lemma_count_start_single(e3, "STMTTRN"@);
    lemma_count_start_single(e4, "STMTTRN"@);
    lemma_count_start_concat(seq![e1], seq![e2], "STMTTRN"@);
    lemma_count_start_concat(seq![e1] + seq![e2], seq![e3], "STMTTRN"@);
    lemma_count_start_concat(seq![e1] + seq![e2] + seq![e3], seq![e4], "STMTTRN"@);
}

/// One record block per transaction: the document opens exactly as many
/// STMTTRN elements as the input list has lines, whatever the account, the
/// list and the emission instant.
pub proof fn lemma_stmttrn_count(account: Seq<char>, s: Seq<Transaction>, now: Timestamp)
    ensures
        count_start(spec_emit(account, s, now), "STMTTRN"@) == s.len(),
{
    lemma_emit_grouping(account, s, now);
    let name = "STMTTRN"@;
    let p = preamble_events(account, now);
    let bo = bounds_events(s);
    let at = all_tx_events(s);
    let cl = seq![EvView::End("BANKTRANLIST"@)];
    let le = ledger_events(s, now);
    lemma_count_preamble(account, now);
    lemma_count_bounds(s);
    lemma_count_all_tx_events(s);
    lemma_count_start_single(EvView::End("BANKTRANLIST"@), name);
    lemma_count_ledger(s, now);
    lemma_count_footer();
    lemma_count_start_concat(p, bo, name);
    lemma_count_start_concat(p + bo, at, name);
    lemma_count_start_concat(p + bo + at, cl, name);
    lemma_count_start_concat(p + bo + at + cl, le, name);
    lemma_count_start_concat(p + bo + at + cl + le, footer_events(), name);
}

} // verus!
