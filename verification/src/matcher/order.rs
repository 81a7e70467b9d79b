//! Putting matched lines back into the order of the file.

use vstd::prelude::*;
use vstd::multiset::Multiset;
use vstd::seq_lib::*;
use crate::matcher::{MatchRecord, MatchedLine};

verus! {

broadcast use vstd::multiset::group_multiset_axioms;

/// The records that a sequence of matched lines stands for.
pub open spec fn records(found: Seq<MatchedLine>) -> Seq<MatchRecord> {
    found.map_values(|m: MatchedLine| m@)
}

/// No record stands before one with a smaller line number.
pub open spec fn ascending(rs: Seq<MatchRecord>) -> bool {
    forall|i: int, j: int| 0 <= i < j < rs.len() ==> rs[i].line_no <= rs[j].line_no
}

/// Each record has a greater line number than every record before it.
pub open spec fn strictly_ascending(rs: Seq<MatchRecord>) -> bool {
    forall|i: int, j: int| 0 <= i < j < rs.len() ==> rs[i].line_no < rs[j].line_no
}

/// No record stands before one with a greater line number.
spec fn descending(rs: Seq<MatchRecord>) -> bool {
    forall|i: int, j: int| 0 <= i < j < rs.len() ==> rs[i].line_no >= rs[j].line_no
}

/// Every record of `low` has a line number no greater than any of `high`.
spec fn all_below(low: Seq<MatchRecord>, high: Seq<MatchRecord>) -> bool {
    forall|i: int, j: int|
        0 <= i < low.len() && 0 <= j < high.len() ==> low[i].line_no <= high[j].line_no
}

proof fn lemma_records_push(s: Seq<MatchedLine>, m: MatchedLine)
    ensures
        records(s.push(m)) == records(s).push(m@),
        records(s.push(m)).to_multiset() == records(s).to_multiset().insert(m@),
{
    assert(records(s.push(m)) =~= records(s).push(m@));
    to_multiset_build(records(s), m@);
}

proof fn lemma_records_pop(s: Seq<MatchedLine>)
    requires
        s.len() > 0,
    ensures
        records(s) == records(s.drop_last()).push(s.last()@),
        records(s).to_multiset() == records(s.drop_last()).to_multiset().insert(s.last()@),
{
    assert(s =~= s.drop_last().push(s.last()));
    lemma_records_push(s.drop_last(), s.last());
}

proof fn lemma_records_concat(a: Seq<MatchedLine>, b: Seq<MatchedLine>)
    ensures
        records(a + b) == records(a) + records(b),
        records(a + b).to_multiset() == records(a).to_multiset().add(records(b).to_multiset()),
{
    assert(records(a + b) =~= records(a) + records(b));
    lemma_multiset_commutative(records(a), records(b));
}

/// Two sequences in the order of their line numbers that hold the same
/// records, one of them without a repeated line number, are one sequence.
pub proof fn lemma_ascending_unique(x: Seq<MatchRecord>, y: Seq<MatchRecord>)
    requires
        strictly_ascending(x),
        ascending(y),
        x.to_multiset() == y.to_multiset(),
    ensures
        x == y,
    decreases x.len(),
{
    to_multiset_len(x);
    to_multiset_len(y);
    if x.len() == 0 {
        assert(x =~= y);
    } else {
        let xl = x.last();
        let yl = y.last();
        to_multiset_contains(x, yl);
        to_multiset_contains(y, yl);
        to_multiset_contains(x, xl);
        to_multiset_contains(y, xl);
        assert(y.contains(yl));
        assert(x.contains(xl));
        let i = choose|i: int| 0 <= i < x.len() && x[i] == yl;
        let j = choose|j: int| 0 <= j < y.len() && y[j] == xl;
        assert(x[i].line_no <= xl.line_no);
        assert(y[j].line_no <= yl.line_no);
        assert(i == x.len() - 1);
        assert(xl == yl);
        to_multiset_remove(x, x.len() - 1);
        to_multiset_remove(y, y.len() - 1);
        assert(x.drop_last() =~= x.remove(x.len() - 1));
        assert(y.drop_last() =~= y.remove(y.len() - 1));
        lemma_ascending_unique(x.drop_last(), y.drop_last());
        assert(x =~= x.drop_last().push(xl));
        assert(y =~= y.drop_last().push(yl));
    }
}

proof fn lemma_no_records(s: Seq<MatchedLine>)
    requires
        s.len() == 0,
    ensures
        records(s).to_multiset() == Multiset::<MatchRecord>::empty(),
{
    to_multiset_len(records(s));
    assert(records(s).to_multiset() =~= Multiset::<MatchRecord>::empty());
}

/// The last record of `src` may go to the end of `dst` where nothing in
/// `other` comes after it.
proof fn lemma_move_greatest(src: Seq<MatchRecord>, other: Seq<MatchRecord>, dst: Seq<MatchRecord>)
    requires
        src.len() > 0,
        ascending(src),
        ascending(other),
        descending(dst),
        all_below(src, dst),
        all_below(other, dst),
        other.len() > 0 ==> other.last().line_no <= src.last().line_no,
    ensures
        ascending(src.drop_last()),
        descending(dst.push(src.last())),
        all_below(src.drop_last(), dst.push(src.last())),
        all_below(other, dst.push(src.last())),
{
    let m = src.last();
    let rest = src.drop_last();
    let grown = dst.push(m);
    assert forall|i: int, j: int| 0 <= i < j < rest.len() implies rest[i].line_no
        <= rest[j].line_no by {
        assert(rest[i] == src[i] && rest[j] == src[j]);
    }
    assert forall|i: int, j: int| 0 <= i < j < grown.len() implies grown[i].line_no
        >= grown[j].line_no by {
        if j < dst.len() {
            assert(grown[i] == dst[i] && grown[j] == dst[j]);
        } else {
            assert(grown[i] == dst[i] && grown[j] == src[src.len() - 1]);
        }
    }
    assert forall|i: int, j: int| 0 <= i < rest.len() && 0 <= j < grown.len() implies rest[i].line_no
        <= grown[j].line_no by {
        assert(rest[i] == src[i]);
        if j < dst.len() {
            assert(grown[j] == dst[j]);
        } else {
            assert(grown[j] == src[src.len() - 1]);
        }
    }
    assert forall|i: int, j: int| 0 <= i < other.len() && 0 <= j < grown.len() implies other[i].line_no
        <= grown[j].line_no by {
        if j < dst.len() {
            assert(grown[j] == dst[j]);
        } else {
            assert(grown[j] == m);
            assert(other[i].line_no <= other[other.len() - 1].line_no);
        }
    }
}

/// The last record of a descending `src` may go to the end of an ascending
/// `dst` that holds nothing greater than `src` does.
proof fn lemma_move_least(src: Seq<MatchRecord>, dst: Seq<MatchRecord>)
    requires
        src.len() > 0,
        descending(src),
        ascending(dst),
        all_below(dst, src),
    ensures
        descending(src.drop_last()),
        ascending(dst.push(src.last())),
        all_below(dst.push(src.last()), src.drop_last()),
{
    let m = src.last();
    let rest = src.drop_last();
    let grown = dst.push(m);
    assert forall|i: int, j: int| 0 <= i < j < rest.len() implies rest[i].line_no
        >= rest[j].line_no by {
        assert(rest[i] == src[i] && rest[j] == src[j]);
    }
    assert forall|i: int, j: int| 0 <= i < j < grown.len() implies grown[i].line_no
        <= grown[j].line_no by {
        if j < dst.len() {
            assert(grown[i] == dst[i] && grown[j] == dst[j]);
        } else {
            assert(grown[i] == dst[i] && grown[j] == src[src.len() - 1]);
        }
    }
    assert forall|i: int, j: int| 0 <= i < grown.len() && 0 <= j < rest.len() implies grown[i].line_no
        <= rest[j].line_no by {
        assert(rest[j] == src[j]);
        if i < dst.len() {
            assert(grown[i] == dst[i]);
        } else {
            assert(grown[i] == src[src.len() - 1]);
        }
    }
}

/// Merges two sequences that are each in the order of their line numbers.
fn merge(a: Vec<MatchedLine>, b: Vec<MatchedLine>) -> (r: Vec<MatchedLine>)
    requires
        ascending(records(a@)),
        ascending(records(b@)),
    ensures
        ascending(records(r@)),
        records(r@).to_multiset() == records(a@).to_multiset().add(records(b@).to_multiset()),
{
    let ghost total = records(a@).to_multiset().add(records(b@).to_multiset());
    let mut a = a;
    let mut b = b;
    let mut taken: Vec<MatchedLine> = Vec::new();
    proof {
        lemma_no_records(taken@);
        assert(records(taken@).to_multiset().add(records(a@).to_multiset()).add(
            records(b@).to_multiset(),
        ) =~= total);
    }
    while a.len() > 0 || b.len() > 0
        invariant
            ascending(records(a@)),
            ascending(records(b@)),
            descending(records(taken@)),
            all_below(records(a@), records(taken@)),
            all_below(records(b@), records(taken@)),
            records(taken@).to_multiset().add(records(a@).to_multiset()).add(
                records(b@).to_multiset(),
            ) == total,
        decreases a.len() + b.len(),
    {
        let from_a = if b.len() == 0 {
            true
        } else if a.len() == 0 {
            false
        } else {
            a[a.len() - 1].line_no > b[b.len() - 1].line_no
        };
        let ghost a0 = a@;
        let ghost b0 = b@;
        let ghost t0 = taken@;
        if from_a {
            let m = a.pop().unwrap();
            proof {
                lemma_records_pop(a0);
                lemma_records_push(t0, m);
                assert(records(a@) =~= records(a0).drop_last());
                assert(records(a0).last() == m@);
                if b0.len() > 0 {
                    assert(records(b0).last() == b0[b0.len() - 1]@);
                }
                lemma_move_greatest(records(a0), records(b0), records(t0));
            }
            taken.push(m);
        } else {
            let m = b.pop().unwrap();
            proof {
                lemma_records_pop(b0);
                lemma_records_push(t0, m);
                assert(records(b@) =~= records(b0).drop_last());
                assert(records(b0).last() == m@);
                if a0.len() > 0 {
                    assert(records(a0).last() == a0[a0.len() - 1]@);
                }
                lemma_move_greatest(records(b0), records(a0), records(t0));
            }
            taken.push(m);
        }
        assert(records(taken@).to_multiset().add(records(a@).to_multiset()).add(
            records(b@).to_multiset(),
        ) =~= total);
    }
    let mut r: Vec<MatchedLine> = Vec::new();
    proof {
        lemma_no_records(a@);
        lemma_no_records(b@);
        lemma_no_records(r@);
        assert(records(r@).to_multiset().add(records(taken@).to_multiset()) =~= total);
    }
    while taken.len() > 0
        invariant
            ascending(records(r@)),
            descending(records(taken@)),
            all_below(records(r@), records(taken@)),
            records(r@).to_multiset().add(records(taken@).to_multiset()) == total,
        decreases taken.len(),
    {
        let ghost t0 = taken@;
        let ghost r0 = r@;
        let m = taken.pop().unwrap();
        proof {
            lemma_records_pop(t0);
            lemma_records_push(r0, m);
            assert(records(taken@) =~= records(t0).drop_last());
            assert(records(t0).last() == m@);
            lemma_move_least(records(t0), records(r0));
        }
        r.push(m);
        assert(records(r@).to_multiset().add(records(taken@).to_multiset()) =~= total);
    }
    proof {
        lemma_no_records(taken@);
        assert(records(r@).to_multiset() =~= total);
    }
    r
}

/// Sorts matched lines by line number.
///
/// The result holds the records that were handed in, each as often as it
/// was there, and none stands before one with a smaller line number.
pub fn restore_order(found: Vec<MatchedLine>) -> (r: Vec<MatchedLine>)
    ensures
        ascending(records(r@)),
        records(r@).to_multiset() == records(found@).to_multiset(),
        r@.len() == found@.len(),
    decreases found@.len(),
{
    if found.len() <= 1 {
        return found;
    }
    let mut left = found;
    let mid: usize = left.len() / 2;
    let right = left.split_off(mid);
    proof {
        assert(found@ =~= left@ + right@);
        lemma_records_concat(left@, right@);
    }
    let left = restore_order(left);
    let right = restore_order(right);
    let r = merge(left, right);
    proof {
        to_multiset_len(records(r@));
        to_multiset_len(records(found@));
    }
    r
}

} // verus!
