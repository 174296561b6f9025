//! Move ordering: a stable insertion sort of score-tagged moves, used
//! by the search to try promising candidates first.

use vstd::prelude::*;

verus! {

/// A candidate move together with its one-ply evaluation.
pub type ScoredMove = ((usize, usize), i32);

/// Whether `x` must be placed strictly before `y` in the requested
/// order; ties keep their original order.
pub open spec fn comes_before(x: ScoredMove, y: ScoredMove, descending: bool) -> bool {
    if descending {
        x.1 > y.1
    } else {
        x.1 < y.1
    }
}

/// `x` inserted into `s` just before the first entry it must precede;
/// entries that tie with `x` stay in front of it.
pub open spec fn insert_sorted(s: Seq<ScoredMove>, x: ScoredMove, descending: bool) -> Seq<
    ScoredMove,
>
    decreases s.len(),
{
    if s.len() == 0 {
        seq![x]
    } else if comes_before(x, s[0], descending) {
        seq![x] + s
    } else {
        seq![s[0]] + insert_sorted(s.drop_first(), x, descending)
    }
}

/// Stable insertion sort of `s`: descending by score when
/// `descending`, else ascending; equal scores keep their input order.
pub open spec fn sort_moves(s: Seq<ScoredMove>, descending: bool) -> Seq<ScoredMove>
    decreases s.len(),
{
    if s.len() == 0 {
        Seq::empty()
    } else {
        insert_sorted(sort_moves(s.drop_last(), descending), s.last(), descending)
    }
}

/// Membership in a sequence with one element put in front.
proof fn lemma_cons_contains(a: ScoredMove, s: Seq<ScoredMove>, y: ScoredMove)
    ensures
        (seq![a] + s).contains(y) <==> (y == a || s.contains(y)),
{
    let t = seq![a] + s;
    if y == a {
        assert(t[0] == y);
    }
    if s.contains(y) {
        let j = choose|j: int| 0 <= j < s.len() && s[j] == y;
        assert(t[j + 1] == y);
    }
    if t.contains(y) {
        let j = choose|j: int| 0 <= j < t.len() && t[j] == y;
        if j > 0 {
            assert(s[j - 1] == y);
        }
    }
}

/// Inserting grows the length by one.
pub proof fn lemma_insert_sorted_len(s: Seq<ScoredMove>, x: ScoredMove, descending: bool)
    ensures
        insert_sorted(s, x, descending).len() == s.len() + 1,
    decreases s.len(),
{
    if s.len() > 0 && !comes_before(x, s[0], descending) {
        lemma_insert_sorted_len(s.drop_first(), x, descending);
    }
}

/// Sorting keeps the length.
pub proof fn lemma_sort_moves_len(s: Seq<ScoredMove>, descending: bool)
    ensures
        sort_moves(s, descending).len() == s.len(),
    decreases s.len(),
{
    if s.len() > 0 {
        lemma_sort_moves_len(s.drop_last(), descending);
        lemma_insert_sorted_len(sort_moves(s.drop_last(), descending), s.last(), descending);
    }
}

/// Inserting adds exactly the new element to the membership.
pub proof fn lemma_insert_sorted_contains(s: Seq<ScoredMove>, x: ScoredMove, descending: bool)
    ensures
        forall|y: ScoredMove|
            #[trigger] insert_sorted(s, x, descending).contains(y) <==> (s.contains(y) || y == x),
    decreases s.len(),
{
    if s.len() == 0 {
        assert forall|y: ScoredMove|
            #[trigger] insert_sorted(s, x, descending).contains(y) <==> (s.contains(y) || y == x) by {
            lemma_cons_contains(x, Seq::empty(), y);
            assert(seq![x] + Seq::<ScoredMove>::empty() =~= seq![x]);
            assert(insert_sorted(s, x, descending) == seq![x]);
        }
    } else if comes_before(x, s[0], descending) {
        assert forall|y: ScoredMove|
            #[trigger] insert_sorted(s, x, descending).contains(y) <==> (s.contains(y) || y == x) by {
            lemma_cons_contains(x, s, y);
        }
    } else {
        lemma_insert_sorted_contains(s.drop_first(), x, descending);
        assert forall|y: ScoredMove|
            #[trigger] insert_sorted(s, x, descending).contains(y) <==> (s.contains(y) || y == x) by {
            lemma_cons_contains(s[0], insert_sorted(s.drop_first(), x, descending), y);
            lemma_cons_contains(s[0], s.drop_first(), y);
            assert(seq![s[0]] + s.drop_first() =~= s);
        }
    }
}

/// Sorting keeps the membership exactly.
pub proof fn lemma_sort_moves_contains(s: Seq<ScoredMove>, descending: bool)
    ensures
        forall|y: ScoredMove| #[trigger] sort_moves(s, descending).contains(y) <==> s.contains(y),
    decreases s.len(),
{
    if s.len() > 0 {
        lemma_sort_moves_contains(s.drop_last(), descending);
        lemma_insert_sorted_contains(sort_moves(s.drop_last(), descending), s.last(), descending);
        assert forall|y: ScoredMove|
            #[trigger] sort_moves(s, descending).contains(y) <==> s.contains(y) by {
            if s.contains(y) {
                let j = choose|j: int| 0 <= j < s.len() && s[j] == y;
                if j < s.len() - 1 {
                    assert(s.drop_last()[j] == y);
                    assert(s.drop_last().contains(y));
                }
            }
            if s.drop_last().contains(y) {
                let j = choose|j: int| 0 <= j < s.drop_last().len() && s.drop_last()[j] == y;
                assert(s[j] == y);
            }
            if y == s.last() {
                assert(s[s.len() - 1] == y);
            }
        }
    }
}

/// The recursive insertion equals a positional insertion at the first
/// index whose entry `x` must precede.
proof fn lemma_insert_position(s: Seq<ScoredMove>, x: ScoredMove, descending: bool, pos: int)
    requires
        0 <= pos <= s.len(),
        forall|k: int| 0 <= k < pos ==> !comes_before(x, #[trigger] s[k], descending),
        pos < s.len() ==> comes_before(x, s[pos], descending),
    ensures
        insert_sorted(s, x, descending) == s.insert(pos, x),
    decreases pos,
{
    if pos == 0 {
        if s.len() == 0 {
            assert(insert_sorted(s, x, descending) =~= s.insert(0, x));
        } else {
            assert(seq![x] + s =~= s.insert(0, x));
        }
    } else {
        lemma_insert_position(s.drop_first(), x, descending, pos - 1);
        assert(seq![s[0]] + s.drop_first().insert(pos - 1, x) =~= s.insert(pos, x));
    }
}

/// Whether `x` must come strictly before `y` in the requested order.
fn scored_before(x: ScoredMove, y: ScoredMove, descending: bool) -> (res: bool)
    ensures
        res == comes_before(x, y, descending),
{
    if descending {
        x.1 > y.1
    } else {
        x.1 < y.1
    }
}

/// Inserts `x` at its stable position in an already processed prefix.
fn insert_scored(v: &mut Vec<ScoredMove>, x: ScoredMove, descending: bool)
    ensures
        final(v)@ == insert_sorted(old(v)@, x, descending),
{
    let mut pos: usize = 0;
    loop
        invariant_except_break
            pos <= v.len(),
            v@ == old(v)@,
            forall|k: int| 0 <= k < pos ==> !comes_before(x, #[trigger] v@[k], descending),
        ensures
            pos <= v.len(),
            v@ == old(v)@,
            forall|k: int| 0 <= k < pos ==> !comes_before(x, #[trigger] v@[k], descending),
            pos < v.len() ==> comes_before(x, v@[pos as int], descending),
        decreases v.len() - pos,
    {
        if pos >= v.len() {
            break ;
        }
        if scored_before(x, v[pos], descending) {
            break ;
        }
        pos = pos + 1;
    }
    proof {
        lemma_insert_position(v@, x, descending, pos as int);
    }
    v.insert(pos, x);
}

/// Stable insertion sort of score-tagged moves: descending by score
/// when `descending`, else ascending.
pub fn sort_scored(v: &Vec<ScoredMove>, descending: bool) -> (r: Vec<ScoredMove>)
    ensures
        r@ == sort_moves(v@, descending),
{
    let mut out: Vec<ScoredMove> = Vec::new();
    let mut i: usize = 0;
    while i < v.len()
        invariant
            i <= v@.len(),
            out@ == sort_moves(v@.subrange(0, i as int), descending),
        decreases v@.len() - i,
    {
        insert_scored(&mut out, v[i], descending);
        proof {
            let s = v@.subrange(0, i + 1);
            assert(s.drop_last() =~= v@.subrange(0, i as int));
            assert(s.last() == v@[i as int]);
            assert(sort_moves(s, descending) == insert_sorted(
                sort_moves(s.drop_last(), descending),
                s.last(),
                descending,
            ));
        }
        i = i + 1;
    }
    proof {
        assert(v@.subrange(0, v@.len() as int) =~= v@);
    }
    out
}

} // verus!
