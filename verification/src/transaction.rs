use vstd::prelude::*;
use crate::amount::Amount;
use crate::date::{date_lt, date_lt_exec, Date};
use crate::strings::{lemma_lex_connected, lemma_lex_irrefl, lemma_lex_trans, lex_lt, lex_lt_exec};

verus! {

/// One statement line: the six fields the emitter reads. The id is the
/// external transaction identifier and doubles as the fallback reference
/// number; the description is the fallback payee name.
#[derive(Clone, Debug)]
pub struct Transaction {
    pub transfer_wise_id: String,
    pub date: Date,
    pub amount: Amount,
    pub description: String,
    pub payment_reference: Option<String>,
    pub merchant: Option<String>,
}

impl Transaction {
    pub open spec fn wf(self) -> bool {
        &&& self.date.wf()
        &&& self.amount.wf()
    }
}

pub open spec fn all_txs_wf(s: Seq<Transaction>) -> bool {
    forall|i: int| 0 <= i < s.len() ==> #[trigger] s[i].wf()
}

/// The strict posting order the statement bounds go by: by date, and on a
/// shared date by the lexicographically smaller id.
pub open spec fn posts_before(a: Transaction, b: Transaction) -> bool {
    ||| date_lt(a.date, b.date)
    ||| (a.date == b.date && lex_lt(a.transfer_wise_id@, b.transfer_wise_id@))
}

/// Whether `a` posts strictly before `b`.
pub fn posts_before_exec(a: &Transaction, b: &Transaction) -> (r: bool)
    ensures
        r == posts_before(*a, *b),
{
    if date_lt_exec(&a.date, &b.date) {
        true
    } else if a.date == b.date {
        lex_lt_exec(a.transfer_wise_id.as_str(), b.transfer_wise_id.as_str())
    } else {
        false
    }
}

/// Two lines neither of which posts before the other share their date and
/// their id.
pub proof fn lemma_posts_before_connected(a: Transaction, b: Transaction)
    requires
        !posts_before(a, b),
        !posts_before(b, a),
    ensures
        a.date == b.date,
        a.transfer_wise_id@ == b.transfer_wise_id@,
{
    lemma_lex_connected(a.transfer_wise_id@, b.transfer_wise_id@);
}

/// The posting order is transitive.
pub proof fn lemma_posts_before_trans(a: Transaction, b: Transaction, c: Transaction)
    requires
        posts_before(a, b),
        posts_before(b, c),
    ensures
        posts_before(a, c),
{
    if a.date == b.date && b.date == c.date {
        lemma_lex_trans(a.transfer_wise_id@, b.transfer_wise_id@, c.transfer_wise_id@);
    }
}

/// The posting order is irreflexive.
pub proof fn lemma_posts_before_irrefl(a: Transaction)
    ensures
        !posts_before(a, a),
{
    lemma_lex_irrefl(a.transfer_wise_id@);
}

/// The posting order is asymmetric.
pub proof fn lemma_posts_before_asym(a: Transaction, b: Transaction)
    requires
        posts_before(a, b),
    ensures
        !posts_before(b, a),
{
    if posts_before(b, a) {
        if a.date == b.date {
            lemma_lex_trans(a.transfer_wise_id@, b.transfer_wise_id@, a.transfer_wise_id@);
            lemma_lex_irrefl(a.transfer_wise_id@);
        }
    }
}

/// `i` points at what the earliest-scan keeps: no line posts before it, and
/// it posts strictly before every line that stands ahead of it in the input
/// (so among ties the first occurrence, and among shared dates the smaller
/// id).
pub open spec fn is_first_earliest(s: Seq<Transaction>, i: int) -> bool {
    &&& 0 <= i < s.len()
    &&& forall|j: int| 0 <= j < s.len() ==> !posts_before(#[trigger] s[j], s[i])
    &&& forall|j: int| 0 <= j < i ==> posts_before(s[i], #[trigger] s[j])
}

/// `i` points at what the latest-scan keeps: it posts before no line, and
/// every line ahead of it posts strictly before it (so among ties the first
/// occurrence, and among shared dates the larger id).
pub open spec fn is_first_latest(s: Seq<Transaction>, i: int) -> bool {
    &&& 0 <= i < s.len()
    &&& forall|j: int| 0 <= j < s.len() ==> !posts_before(s[i], #[trigger] s[j])
    &&& forall|j: int| 0 <= j < i ==> posts_before(#[trigger] s[j], s[i])
}

/// The earliest transaction of the list, ties on the date broken toward the
/// lexicographically smaller id; `None` exactly on an empty list.
pub fn earliest_tx(transactions: &Vec<Transaction>) -> (r: Option<&Transaction>)
    ensures
        match r {
            None => transactions@.len() == 0,
            Some(t) => exists|i: int|
                is_first_earliest(transactions@, i) && *t == transactions@[i],
        },
{
    let s = transactions;
    if s.len() == 0 {
        return None;
    }
    let ghost sq = s@;
    let mut best: usize = 0;
    let mut i: usize = 1;
    proof {
        lemma_posts_before_irrefl(sq[0]);
    }
    while i < s.len()
        invariant
            0 <= best < i <= sq.len(),
            sq == s@,
            forall|j: int| 0 <= j < i ==> !posts_before(#[trigger] sq[j], sq[best as int]),
            forall|j: int| 0 <= j < best ==> posts_before(sq[best as int], #[trigger] sq[j]),
        decreases sq.len() - i,
    {
        let cur = &s[best];
        let cand = &s[i];
        if posts_before_exec(cand, cur) {
            proof {
                let b0 = sq[best as int];
                let c = sq[i as int];
                assert forall|j: int| 0 <= j < i + 1 implies !posts_before(
                    #[trigger] sq[j],
                    c,
                ) by {
                    if j == i {
                        lemma_posts_before_irrefl(c);
                    } else if posts_before(sq[j], c) {
                        if posts_before(b0, sq[j]) {
                            lemma_posts_before_trans(c, b0, sq[j]);
                        } else {
                            lemma_posts_before_connected(sq[j], b0);
                        }
                        lemma_posts_before_asym(c, sq[j]);
                    }
                }
                assert forall|j: int| 0 <= j < i implies posts_before(c, #[trigger] sq[j]) by {
                    if j < best {
                        lemma_posts_before_trans(c, b0, sq[j]);
                    } else if j != best {
                        if posts_before(b0, sq[j]) {
                            lemma_posts_before_trans(c, b0, sq[j]);
                        } else {
                            lemma_posts_before_connected(sq[j], b0);
                        }
                    }
                }
            }
            best = i;
        }
        i = i + 1;
    }
    Some(&s[best])
}

/// The latest transaction of the list, ties on the date broken toward the
/// lexicographically larger id; `None` exactly on an empty list.
pub fn latest_tx(transactions: &Vec<Transaction>) -> (r: Option<&Transaction>)
    ensures
        match r {
            None => transactions@.len() == 0,
            Some(t) => exists|i: int| is_first_latest(transactions@, i) && *t == transactions@[i],
        },
{
    let s = transactions;
    if s.len() == 0 {
        return None;
    }
    let ghost sq = s@;
    let mut best: usize = 0;
    let mut i: usize = 1;
    proof {
        lemma_posts_before_irrefl(sq[0]);
    }
    while i < s.len()
        invariant
            0 <= best < i <= sq.len(),
            sq == s@,
            forall|j: int| 0 <= j < i ==> !posts_before(sq[best as int], #[trigger] sq[j]),
            forall|j: int| 0 <= j < best ==> posts_before(#[trigger] sq[j], sq[best as int]),
        decreases sq.len() - i,
    {
        let cur = &s[best];
        let cand = &s[i];
        if posts_before_exec(cur, cand) {
            proof {
                let b0 = sq[best as int];
                let c = sq[i as int];
                assert forall|j: int| 0 <= j < i + 1 implies !posts_before(
                    c,
                    #[trigger] sq[j],
                ) by {
                    if j == i {
                        lemma_posts_before_irrefl(c);
                    } else if posts_before(c, sq[j]) {
                        if posts_before(sq[j], b0) {
                            lemma_posts_before_trans(sq[j], b0, c);
                        } else {
                            lemma_posts_before_connected(b0, sq[j]);
                        }
                        lemma_posts_before_asym(sq[j], c);
                    }
                }
                assert forall|j: int| 0 <= j < i implies posts_before(#[trigger] sq[j], c) by {
                    if j < best {
                        lemma_posts_before_trans(sq[j], b0, c);
                    } else if j != best {
                        if posts_before(sq[j], b0) {
                            lemma_posts_before_trans(sq[j], b0, c);
                        } else {
                            lemma_posts_before_connected(b0, sq[j]);
                        }
                    }
                }
            }
            best = i;
        }
        i = i + 1;
    }
    Some(&s[best])
}

/// Only one index can be what the earliest-scan keeps.
pub proof fn lemma_first_earliest_unique(s: Seq<Transaction>, i1: int, i2: int)
    requires
        is_first_earliest(s, i1),
        is_first_earliest(s, i2),
    ensures
        i1 == i2,
{
    if i1 < i2 {
        assert(posts_before(s[i2], s[i1]));
        assert(!posts_before(s[i2], s[i1]));
    }
    if i2 < i1 {
        assert(posts_before(s[i1], s[i2]));
        assert(!posts_before(s[i1], s[i2]));
    }
}

/// Only one index can be what the latest-scan keeps.
pub proof fn lemma_first_latest_unique(s: Seq<Transaction>, i1: int, i2: int)
    requires
        is_first_latest(s, i1),
        is_first_latest(s, i2),
    ensures
        i1 == i2,
{
    if i1 < i2 {
        assert(posts_before(s[i1], s[i2]));
        assert(!posts_before(s[i1], s[i2]));
    }
    if i2 < i1 {
        assert(posts_before(s[i2], s[i1]));
        assert(!posts_before(s[i2], s[i1]));
    }
}

/// The statement's start bound does not depend on the input order: over any
/// reordering of the list, the earliest scan lands on the same posting date
/// and the same id.
pub proof fn lemma_earliest_permutation(
    s1: Seq<Transaction>,
    s2: Seq<Transaction>,
    i1: int,
    i2: int,
)
    requires
        s1.to_multiset() == s2.to_multiset(),
        is_first_earliest(s1, i1),
        is_first_earliest(s2, i2),
    ensures
        s1[i1].date == s2[i2].date,
        s1[i1].transfer_wise_id@ == s2[i2].transfer_wise_id@,
{
    broadcast use vstd::seq_lib::group_to_multiset_ensures;

    assert(s1.contains(s1[i1]));
    assert(s1.to_multiset().count(s1[i1]) > 0);
    assert(s2.to_multiset().count(s1[i1]) > 0);
    assert(s2.contains(s1[i1]));
    let j2 = choose|j: int| 0 <= j < s2.len() && s2[j] == s1[i1];
    assert(!posts_before(s1[i1], s2[i2]));
    assert(s2.contains(s2[i2]));
    assert(s2.to_multiset().count(s2[i2]) > 0);
    assert(s1.to_multiset().count(s2[i2]) > 0);
    assert(s1.contains(s2[i2]));
    let j1 = choose|j: int| 0 <= j < s1.len() && s1[j] == s2[i2];
    assert(!posts_before(s2[i2], s1[i1]));
    lemma_posts_before_connected(s1[i1], s2[i2]);
}

/// The statement's end bound does not depend on the input order either.
pub proof fn lemma_latest_permutation(
    s1: Seq<Transaction>,
    s2: Seq<Transaction>,
    i1: int,
    i2: int,
)
    requires
        s1.to_multiset() == s2.to_multiset(),
        is_first_latest(s1, i1),
        is_first_latest(s2, i2),
    ensures
        s1[i1].date == s2[i2].date,
        s1[i1].transfer_wise_id@ == s2[i2].transfer_wise_id@,
{
    broadcast use vstd::seq_lib::group_to_multiset_ensures;

    assert(s1.contains(s1[i1]));
    assert(s1.to_multiset().count(s1[i1]) > 0);
    assert(s2.to_multiset().count(s1[i1]) > 0);
    assert(s2.contains(s1[i1]));
    let j2 = choose|j: int| 0 <= j < s2.len() && s2[j] == s1[i1];
    assert(!posts_before(s2[i2], s1[i1]));
    assert(s2.contains(s2[i2]));
    assert(s2.to_multiset().count(s2[i2]) > 0);
    assert(s1.to_multiset().count(s2[i2]) > 0);
    assert(s1.contains(s2[i2]));
    let j1 = choose|j: int| 0 <= j < s1.len() && s1[j] == s2[i2];
    assert(!posts_before(s1[i1], s2[i2]));
    lemma_posts_before_connected(s1[i1], s2[i2]);
}

} // verus!
