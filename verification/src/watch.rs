//! The incremental listing watch engine.
//!
//! Each poll of the listings endpoint returns a full, unordered snapshot
//! that may repeat items already delivered.  The engine sorts every
//! snapshot ascending by `listed_date` (stably, so ties keep their
//! arrival order), then walks the sorted snapshot against a watermark:
//! an item is emitted exactly when its `listed_date` is strictly greater
//! than the watermark, and the watermark then advances to that date.
//! A fetch error ends the session: it is surfaced once and no further
//! poll is accepted.
//!
//! Known limitation, preserved deliberately: the watermark compares
//! timestamps only, not identities, so of two distinct listings sharing
//! one `listed_date` only the first ever seen is emitted.

use vstd::prelude::*;

use crate::errors::NFTFiError;
use crate::models::Listing;

verus! {

/// True when the sequence is ascending (non-strictly) in `listed_date`.
pub open spec fn sorted_by_date(s: Seq<Listing>) -> bool {
    forall|i: int, j: int| 0 <= i < j < s.len() ==> s[i].listed_date <= s[j].listed_date
}

/// Where `x` lands when inserted into `s` from the right: after every
/// element whose date is at most `x`'s, so an insertion sort built from
/// this function is stable.
pub open spec fn insert_by_date(s: Seq<Listing>, x: Listing) -> Seq<Listing>
    decreases s.len(),
{
    if s.len() == 0 {
        seq![x]
    } else if s.last().listed_date <= x.listed_date {
        s.push(x)
    } else {
        insert_by_date(s.drop_last(), x).push(s.last())
    }
}

/// Stable insertion sort of a snapshot, ascending by `listed_date`.
pub open spec fn sort_by_date(s: Seq<Listing>) -> Seq<Listing>
    decreases s.len(),
{
    if s.len() == 0 {
        Seq::<Listing>::empty()
    } else {
        insert_by_date(sort_by_date(s.drop_last()), s.last())
    }
}

proof fn lemma_insert_by_date_len(s: Seq<Listing>, x: Listing)
    ensures
        insert_by_date(s, x).len() == s.len() + 1,
    decreases s.len(),
{
    if s.len() != 0 && s.last().listed_date > x.listed_date {
        lemma_insert_by_date_len(s.drop_last(), x);
    }
}

/// Inserting into a sorted sequence keeps it sorted and grows it by
/// one.
proof fn lemma_insert_by_date_keeps_sorted(s: Seq<Listing>, x: Listing)
    requires
        sorted_by_date(s),
    ensures
        sorted_by_date(insert_by_date(s, x)),
        insert_by_date(s, x).len() == s.len() + 1,
    decreases s.len(),
{
    lemma_insert_by_date_len(s, x);
    if s.len() == 0 {
    } else if s.last().listed_date <= x.listed_date {
    } else {
        lemma_insert_by_date_keeps_sorted(s.drop_last(), x);
        let t = insert_by_date(s.drop_last(), x);
        // t is sorted and one longer than s.drop_last(); pushing s.last()
        // keeps order because s.last() exceeds x and every element of
        // s.drop_last().
        assert forall|i: int| 0 <= i < t.len() implies t[i].listed_date <= s.last().listed_date by {
            lemma_insert_by_date_membership(s.drop_last(), x, i);
        }
    }
}

/// Each position of `insert_by_date(s, x)` holds either `x` or some
/// element of `s`.
proof fn lemma_insert_by_date_membership(s: Seq<Listing>, x: Listing, i: int)
    requires
        0 <= i < insert_by_date(s, x).len(),
    ensures
        insert_by_date(s, x)[i] == x || exists|j: int| 0 <= j < s.len() && insert_by_date(s, x)[i] == s[j],
    decreases s.len(),
{
    lemma_insert_by_date_len(s, x);
    if s.len() == 0 {
    } else if s.last().listed_date <= x.listed_date {
        if i < s.len() {
            assert(insert_by_date(s, x)[i] == s[i]);
        }
    } else {
        let t = insert_by_date(s.drop_last(), x);
        lemma_insert_by_date_len(s.drop_last(), x);
        if i < t.len() {
            lemma_insert_by_date_membership(s.drop_last(), x, i);
            if t[i] != x {
                let j = choose|j: int| 0 <= j < s.drop_last().len() && t[i] == s.drop_last()[j];
                assert(s.drop_last()[j] == s[j]);
            }
        } else {
            assert(insert_by_date(s, x)[i] == s[s.len() - 1]);
        }
    }
}

/// The sorted image of a snapshot is sorted and has the same length.
pub proof fn lemma_sort_by_date_sorted(s: Seq<Listing>)
    ensures
        sorted_by_date(sort_by_date(s)),
        sort_by_date(s).len() == s.len(),
    decreases s.len(),
{
    if s.len() != 0 {
        lemma_sort_by_date_sorted(s.drop_last());
        lemma_insert_by_date_keeps_sorted(sort_by_date(s.drop_last()), s.last());
    }
}

/// If everything from position `i` on exceeds `x`'s date and the element
/// just before position `i` (if any) does not, then inserting `x` means
/// placing it exactly at position `i`.
proof fn lemma_insert_at(s: Seq<Listing>, x: Listing, i: int)
    requires
        0 <= i <= s.len(),
        forall|j: int| i <= j < s.len() ==> s[j].listed_date > x.listed_date,
        i > 0 ==> s[i - 1].listed_date <= x.listed_date,
    ensures
        insert_by_date(s, x) == s.subrange(0, i).push(x) + s.subrange(i, s.len() as int),
    decreases s.len(),
{
    if i == s.len() {
        if s.len() == 0 {
            assert(insert_by_date(s, x) =~= s.subrange(0, i).push(x) + s.subrange(i, s.len() as int));
        } else {
            assert(insert_by_date(s, x) == s.push(x));
            assert(s.push(x) =~= s.subrange(0, i).push(x) + s.subrange(i, s.len() as int));
        }
    } else {
        assert(s.last().listed_date > x.listed_date);
        lemma_insert_at(s.drop_last(), x, i);
        assert(s.drop_last().subrange(0, i) =~= s.subrange(0, i));
        assert(insert_by_date(s, x) == (s.drop_last().subrange(0, i).push(x)
            + s.drop_last().subrange(i, s.drop_last().len() as int)).push(s.last()));
        assert((s.subrange(0, i).push(x) + s.drop_last().subrange(i, s.drop_last().len() as int)).push(
            s.last()) =~= s.subrange(0, i).push(x) + s.subrange(i, s.len() as int));
    }
}

/// Inserting `x` adds exactly `x` to the sequence's contents.
proof fn lemma_insert_by_date_multiset(s: Seq<Listing>, x: Listing)
    ensures
        insert_by_date(s, x).to_multiset() == s.to_multiset().insert(x),
    decreases s.len(),
{
    broadcast use vstd::seq_lib::group_to_multiset_ensures;

    if s.len() == 0 {
        assert(seq![x] =~= Seq::<Listing>::empty().push(x));
        assert(s =~= Seq::<Listing>::empty());
    } else if s.last().listed_date <= x.listed_date {
    } else {
        lemma_insert_by_date_multiset(s.drop_last(), x);
        assert(s =~= s.drop_last().push(s.last()));
        assert(s.drop_last().to_multiset().insert(x).insert(s.last())
            =~= s.drop_last().to_multiset().insert(s.last()).insert(x));
    }
}

/// Law: sorting permutes — the sorted snapshot holds exactly the items
/// of the fetched one, multiplicities included.
pub proof fn lemma_sort_by_date_permutes(s: Seq<Listing>)
    ensures
        sort_by_date(s).to_multiset() == s.to_multiset(),
    decreases s.len(),
{
    broadcast use vstd::seq_lib::group_to_multiset_ensures;

    if s.len() != 0 {
        lemma_sort_by_date_permutes(s.drop_last());
        lemma_insert_by_date_multiset(sort_by_date(s.drop_last()), s.last());
        assert(s =~= s.drop_last().push(s.last()));
    }
}

/// The items carrying date `d`.
pub open spec fn has_date(d: i64) -> spec_fn(Listing) -> bool {
    |l: Listing| l.listed_date == d
}

/// How inserting one listing acts on the items sharing one date: `x`
/// joins the end of its own date class, and every other class is left
/// alone.
proof fn lemma_insert_by_date_filter(s: Seq<Listing>, x: Listing, d: i64)
    ensures
        x.listed_date == d ==> insert_by_date(s, x).filter(has_date(d)) == s.filter(
            has_date(d),
        ).push(x),
        x.listed_date != d ==> insert_by_date(s, x).filter(has_date(d)) == s.filter(has_date(d)),
    decreases s.len(),
{
    reveal(Seq::filter);
    let pred = has_date(d);
    if s.len() == 0 {
        let u = seq![x];
        assert(u.drop_last() =~= s);
        assert(u.last() == x);
        assert(u.filter(pred) == if pred(x) {
            s.filter(pred).push(x)
        } else {
            s.filter(pred)
        });
    } else if s.last().listed_date <= x.listed_date {
        assert(s.push(x).drop_last() =~= s);
        assert(s.push(x).filter(pred) == if pred(x) {
            s.filter(pred).push(x)
        } else {
            s.filter(pred)
        });
    } else {
        let t = insert_by_date(s.drop_last(), x);
        lemma_insert_by_date_filter(s.drop_last(), x, d);
        assert(t.push(s.last()).drop_last() =~= t);
        assert(t.push(s.last()).filter(pred) == if pred(s.last()) {
            t.filter(pred).push(s.last())
        } else {
            t.filter(pred)
        });
        // s.last()'s date exceeds x's, so when x belongs to class `d`
        // the last element does not.
        if x.listed_date == d {
            assert(!pred(s.last()));
        }
        assert(s.filter(pred) == if pred(s.last()) {
            s.drop_last().filter(pred).push(s.last())
        } else {
            s.drop_last().filter(pred)
        });
    }
}

/// Law: the sort is stable — for every date, the items carrying that
/// date stand in the sorted snapshot exactly as they arrived.
pub proof fn lemma_sort_by_date_stable(s: Seq<Listing>, d: i64)
    ensures
        sort_by_date(s).filter(has_date(d)) == s.filter(has_date(d)),
    decreases s.len(),
{
    reveal(Seq::filter);
    let pred = has_date(d);
    if s.len() == 0 {
        assert(s =~= Seq::<Listing>::empty());
        assert(sort_by_date(s).filter(pred) =~= s.filter(pred));
    } else {
        lemma_sort_by_date_stable(s.drop_last(), d);
        lemma_insert_by_date_filter(sort_by_date(s.drop_last()), s.last(), d);
        assert(s.filter(pred) == if pred(s.last()) {
            s.drop_last().filter(pred).push(s.last())
        } else {
            s.drop_last().filter(pred)
        });
    }
}

/// Insert one listing into an already sorted vector at its stable
/// position: after every element whose date is at most `x`'s.
fn insert_listing(v: &mut Vec<Listing>, x: Listing)
    ensures
        final(v)@ == insert_by_date(old(v)@, x),
{
    let mut i: usize = v.len();
    while i > 0 && v[i - 1].listed_date > x.listed_date
        invariant
            i <= v.len(),
            v@ == old(v)@,
            forall|j: int| i <= j < v@.len() ==> v@[j].listed_date > x.listed_date,
        decreases i,
    {
        i = i - 1;
    }
    proof {
        lemma_insert_at(v@, x, i as int);
    }
    v.insert(i, x);
    proof {
        assert(v@ =~= old(v)@.subrange(0, i as int).push(x) + old(v)@.subrange(
            i as int,
            old(v)@.len() as int,
        ));
    }
}

/// Sort a snapshot ascending by `listed_date` with a stable insertion
/// sort: listings sharing a date keep their arrival order.
pub fn sort_listings(l: Vec<Listing>) -> (r: Vec<Listing>)
    ensures
        r@ == sort_by_date(l@),
        sorted_by_date(r@),
{
    let ghost orig: Seq<Listing> = l@;
    let mut rest = l;
    let mut out: Vec<Listing> = Vec::new();
    let ghost mut k: int = 0;
    proof {
        assert(orig.subrange(0, 0) =~= Seq::<Listing>::empty());
        assert(rest@ =~= orig.subrange(0, orig.len() as int));
    }
    while rest.len() > 0
        invariant
            0 <= k <= orig.len(),
            k + rest@.len() == orig.len(),
            rest@ == orig.subrange(k, orig.len() as int),
            out@ == sort_by_date(orig.subrange(0, k)),
        decreases rest@.len(),
    {
        let x = rest.remove(0);
        proof {
            assert(x == orig[k]);
            assert(rest@ =~= orig.subrange(k + 1, orig.len() as int));
        }
        insert_listing(&mut out, x);
        proof {
            let next = orig.subrange(0, k + 1);
            assert(next.drop_last() =~= orig.subrange(0, k));
            assert(next.last() == orig[k]);
            assert(out@ == sort_by_date(next));
            k = k + 1;
        }
    }
    proof {
        assert(orig.subrange(0, orig.len() as int) =~= orig);
        lemma_sort_by_date_sorted(orig);
    }
    out
}

/// Does the watermark admit an item carrying `date`?  An unset watermark
/// admits everything; a set one only dates strictly greater.
pub open spec fn admits(cursor: Option<i64>, date: i64) -> bool {
    match cursor {
        Option::None => true,
        Option::Some(c) => date > c,
    }
}

/// The subsequence of `s` the engine emits when walked left to right
/// starting from watermark `cursor`: each admitted item is kept and the
/// watermark moves to its date.
pub open spec fn emitted_seq(cursor: Option<i64>, s: Seq<Listing>) -> Seq<Listing>
    decreases s.len(),
{
    if s.len() == 0 {
        Seq::<Listing>::empty()
    } else if admits(cursor, s.first().listed_date) {
        seq![s.first()] + emitted_seq(Option::Some(s.first().listed_date), s.drop_first())
    } else {
        emitted_seq(cursor, s.drop_first())
    }
}

/// The watermark after walking `s` from `cursor`: unchanged if nothing
/// was admitted, else the date of the last admitted item.
pub open spec fn advanced_cursor(cursor: Option<i64>, s: Seq<Listing>) -> Option<i64>
    decreases s.len(),
{
    if s.len() == 0 {
        cursor
    } else if admits(cursor, s.first().listed_date) {
        advanced_cursor(Option::Some(s.first().listed_date), s.drop_first())
    } else {
        advanced_cursor(cursor, s.drop_first())
    }
}

/// Walk an already sorted snapshot against the watermark: emit the items
/// the watermark admits and advance it over each of them.
pub fn emit_new(cursor: Option<i64>, sorted: Vec<Listing>) -> (r: (Vec<Listing>, Option<i64>))
    ensures
        r.0@ == emitted_seq(cursor, sorted@),
        r.1 == advanced_cursor(cursor, sorted@),
{
    let ghost orig: Seq<Listing> = sorted@;
    let mut rest = sorted;
    let mut out: Vec<Listing> = Vec::new();
    let mut cur: Option<i64> = cursor;
    proof {
        assert(rest@ =~= orig);
        assert(emitted_seq(cursor, orig) =~= out@ + emitted_seq(cur, rest@));
    }
    while rest.len() > 0
        invariant
            emitted_seq(cursor, orig) == out@ + emitted_seq(cur, rest@),
            advanced_cursor(cursor, orig) == advanced_cursor(cur, rest@),
        decreases rest@.len(),
    {
        let ghost before: Seq<Listing> = rest@;
        let x = rest.remove(0);
        proof {
            assert(x == before.first());
            assert(rest@ =~= before.drop_first());
        }
        let date = x.listed_date;
        let take = match cur {
            Option::None => true,
            Option::Some(c) => date > c,
        };
        if take {
            proof {
                assert(emitted_seq(cur, before) == seq![x] + emitted_seq(
                    Option::Some(date),
                    before.drop_first(),
                ));
                assert(out@ + emitted_seq(cur, before) =~= out@.push(x) + emitted_seq(
                    Option::Some(date),
                    before.drop_first(),
                ));
            }
            out.push(x);
            cur = Option::Some(date);
        } else {
            proof {
                assert(emitted_seq(cur, before) == emitted_seq(cur, before.drop_first()));
            }
        }
    }
    proof {
        assert(emitted_seq(cur, rest@) =~= Seq::<Listing>::empty());
        assert(out@ + emitted_seq(cur, rest@) =~= out@);
    }
    (out, cur)
}

/// Law: nothing new is dropped — walking a sorted snapshot, every date
/// the watermark admits appears among the emitted items' dates.
pub proof fn lemma_emitted_covers_new_dates(cursor: Option<i64>, s: Seq<Listing>)
    requires
        sorted_by_date(s),
    ensures
        forall|i: int|
            0 <= i < s.len() && admits(cursor, s[i].listed_date) ==> exists|j: int|
                0 <= j < emitted_seq(cursor, s).len() && emitted_seq(cursor, s)[j].listed_date
                    == s[i].listed_date,
    decreases s.len(),
{
    if s.len() == 0 {
    } else {
        let d0 = s.first().listed_date;
        let rest = s.drop_first();
        let e = emitted_seq(cursor, s);
        assert(sorted_by_date(rest)) by {
            assert(forall|i: int| 0 <= i < rest.len() ==> rest[i] == s[i + 1]);
        }
        if admits(cursor, d0) {
            let etail = emitted_seq(Option::Some(d0), rest);
            lemma_emitted_covers_new_dates(Option::Some(d0), rest);
            assert(e == seq![s.first()] + etail);
            assert forall|i: int|
                0 <= i < s.len() && admits(cursor, s[i].listed_date) implies exists|j: int|
                0 <= j < e.len() && e[j].listed_date == s[i].listed_date by {
                let date = s[i].listed_date;
                if date == d0 {
                    assert(e[0].listed_date == date);
                } else {
                    assert(rest[i - 1] == s[i]);
                    assert(date > d0);
                    let j0 = choose|j0: int|
                        0 <= j0 < etail.len() && etail[j0].listed_date == date;
                    assert(e[j0 + 1].listed_date == date);
                }
            }
        } else {
            lemma_emitted_covers_new_dates(cursor, rest);
            assert(e == emitted_seq(cursor, rest));
            assert forall|i: int|
                0 <= i < s.len() && admits(cursor, s[i].listed_date) implies exists|j: int|
                0 <= j < e.len() && e[j].listed_date == s[i].listed_date by {
                assert(i >= 1 && rest[i - 1] == s[i]);
            }
        }
    }
}

/// True when dates along `s` are strictly increasing, so in particular
/// no date ever repeats.
pub open spec fn dates_strictly_increasing(s: Seq<Listing>) -> bool {
    forall|i: int, j: int| 0 <= i < j < s.len() ==> s[i].listed_date < s[j].listed_date
}

/// True when the watermark `cursor` admits every item of `s`.
pub open spec fn all_dates_admitted(cursor: Option<i64>, s: Seq<Listing>) -> bool {
    forall|i: int| 0 <= i < s.len() ==> admits(cursor, s[i].listed_date)
}

/// Order on watermarks: unset is below everything; set ones compare by
/// date.
pub open spec fn cursor_le(a: Option<i64>, b: Option<i64>) -> bool {
    match a {
        Option::None => true,
        Option::Some(x) => match b {
            Option::None => false,
            Option::Some(y) => x <= y,
        },
    }
}

/// Law, within one poll: every emitted item's date is admitted by the
/// starting watermark, the emitted dates are strictly increasing, and
/// the watermark ends at the last emitted date (or stays put when
/// nothing is emitted).  This holds for any snapshot, sorted or not.
pub proof fn lemma_batch_emissions(cursor: Option<i64>, s: Seq<Listing>)
    ensures
        all_dates_admitted(cursor, emitted_seq(cursor, s)),
        dates_strictly_increasing(emitted_seq(cursor, s)),
        emitted_seq(cursor, s).len() == 0 ==> advanced_cursor(cursor, s) == cursor,
        emitted_seq(cursor, s).len() > 0 ==> advanced_cursor(cursor, s) == Option::Some(
            emitted_seq(cursor, s).last().listed_date,
        ),
    decreases s.len(),
{
    if s.len() == 0 {
    } else {
        let d0 = s.first().listed_date;
        if admits(cursor, d0) {
            let e = emitted_seq(cursor, s);
            let tail = emitted_seq(Option::Some(d0), s.drop_first());
            lemma_batch_emissions(Option::Some(d0), s.drop_first());
            assert(e == seq![s.first()] + tail);
            assert(e[0] == s.first());
            assert forall|i: int| 1 <= i < e.len() implies e[i] == tail[i - 1] by {}
            assert forall|i: int| 0 <= i < e.len() implies admits(cursor, e[i].listed_date) by {
                if i >= 1 {
                    assert(admits(Option::Some(d0), tail[i - 1].listed_date));
                }
            }
            assert forall|i: int, j: int| 0 <= i < j < e.len() implies e[i].listed_date
                < e[j].listed_date by {
                if i == 0 {
                    assert(admits(Option::Some(d0), tail[j - 1].listed_date));
                } else {
                    assert(tail[i - 1].listed_date < tail[j - 1].listed_date);
                }
            }
            if tail.len() == 0 {
                assert(e.last() == s.first());
            } else {
                assert(e.last() == tail.last());
            }
        } else {
            lemma_batch_emissions(cursor, s.drop_first());
        }
    }
}

/// Law: a poll never moves the watermark backwards.
pub proof fn lemma_cursor_advances(cursor: Option<i64>, s: Seq<Listing>)
    ensures
        cursor_le(cursor, advanced_cursor(cursor, s)),
{
    lemma_batch_emissions(cursor, s);
    let e = emitted_seq(cursor, s);
    if e.len() > 0 {
        assert(admits(cursor, e[e.len() - 1].listed_date));
    }
}

/// Law, watermark strictness: once the watermark stands at `t`, no item
/// whose `listed_date` is `t` (or older) is ever emitted — in
/// particular, of two distinct listings sharing one timestamp only the
/// first ever delivered can appear.
pub proof fn lemma_watermark_strict(t: i64, s: Seq<Listing>)
    ensures
        forall|x: Listing|
            emitted_seq(Option::Some(t), s).contains(x) ==> x.listed_date > t,
{
    lemma_batch_emissions(Option::Some(t), s);
    assert forall|x: Listing|
        emitted_seq(Option::Some(t), s).contains(x) implies x.listed_date > t by {
        let i = choose|i: int|
            0 <= i < emitted_seq(Option::Some(t), s).len() && emitted_seq(Option::Some(t), s)[i]
                == x;
        assert(admits(Option::Some(t), emitted_seq(Option::Some(t), s)[i].listed_date));
    }
}

/// Everything one session emits when fed the snapshots of `snaps` in
/// order, each snapshot sorted and filtered against the running
/// watermark exactly as `ListingWatch::next_batch` does.
pub open spec fn session_emissions(cursor: Option<i64>, snaps: Seq<Seq<Listing>>) -> Seq<Listing>
    decreases snaps.len(),
{
    if snaps.len() == 0 {
        Seq::<Listing>::empty()
    } else {
        emitted_seq(cursor, sort_by_date(snaps.first())) + session_emissions(
            advanced_cursor(cursor, sort_by_date(snaps.first())),
            snaps.drop_first(),
        )
    }
}

/// Law, across a whole session: whatever snapshots the polls return,
/// the dates of all emitted items are strictly increasing — so the
/// emission order is monotone and no two emissions share a date — and
/// every one of them was admitted by the session's starting watermark.
pub proof fn lemma_session_monotone(cursor: Option<i64>, snaps: Seq<Seq<Listing>>)
    ensures
        all_dates_admitted(cursor, session_emissions(cursor, snaps)),
        dates_strictly_increasing(session_emissions(cursor, snaps)),
    decreases snaps.len(),
{
    if snaps.len() == 0 {
    } else {
        let s0 = sort_by_date(snaps.first());
        let e1 = emitted_seq(cursor, s0);
        let c1 = advanced_cursor(cursor, s0);
        let rest = session_emissions(c1, snaps.drop_first());
        let whole = session_emissions(cursor, snaps);
        lemma_batch_emissions(cursor, s0);
        lemma_cursor_advances(cursor, s0);
        lemma_session_monotone(c1, snaps.drop_first());
        assert(whole == e1 + rest);
        assert forall|i: int| 0 <= i < whole.len() implies admits(cursor, whole[i].listed_date) by {
            if i < e1.len() {
                assert(whole[i] == e1[i]);
            } else {
                assert(whole[i] == rest[i - e1.len()]);
                assert(admits(c1, rest[i - e1.len()].listed_date));
            }
        }
        assert forall|i: int, j: int| 0 <= i < j < whole.len() implies whole[i].listed_date
            < whole[j].listed_date by {
            if j < e1.len() {
                assert(e1[i].listed_date < e1[j].listed_date);
            } else if i >= e1.len() {
                assert(rest[i - e1.len()].listed_date < rest[j - e1.len()].listed_date);
            } else {
                // i lands in this poll's batch, j in a later one: the
                // watermark after this poll is the batch's last date,
                // and everything later is strictly above it.
                assert(whole[i] == e1[i]);
                assert(whole[j] == rest[j - e1.len()]);
                assert(c1 == Option::Some(e1.last().listed_date));
                assert(admits(c1, rest[j - e1.len()].listed_date));
                if i < e1.len() - 1 {
                    assert(e1[i].listed_date < e1.last().listed_date);
                }
            }
        }
    }
}

/// The state of one watch session: the token-bucket rate (polls per
/// second), the watermark of the largest `listed_date` already delivered,
/// and whether a fetch error has ended the session.
pub struct ListingWatch {
    refresh_rate: u32,
    cursor: Option<i64>,
    failed: bool,
}

impl ListingWatch {
    /// The configured poll rate, in polls per second.
    pub closed spec fn rate(self) -> u32 {
        self.refresh_rate
    }

    /// The watermark: the largest `listed_date` delivered so far in this
    /// session, unset before the first emission.
    pub closed spec fn watermark(self) -> Option<i64> {
        self.cursor
    }

    /// True until a fetch error ends the session.
    pub closed spec fn live(self) -> bool {
        !self.failed
    }

    /// Start a watch session.  Fails fast, before any network activity,
    /// when the refresh rate is not positive; otherwise the session
    /// starts live with the watermark unset.
    pub fn new(refresh_rate: u32) -> (r: Result<ListingWatch, NFTFiError>)
        ensures
            refresh_rate > 0 ==> r is Ok && r->Ok_0.rate() == refresh_rate
                && r->Ok_0.watermark() is None && r->Ok_0.live(),
            refresh_rate == 0 ==> r is Err && r->Err_0 is InvalidConfiguration,
    {
        if refresh_rate == 0 {
            Err(NFTFiError::InvalidConfiguration)
        } else {
            Ok(ListingWatch { refresh_rate, cursor: None, failed: false })
        }
    }

    /// The configured poll rate.
    pub fn refresh_rate(&self) -> (r: u32)
        ensures
            r == self.rate(),
    {
        self.refresh_rate
    }

    /// The current watermark.
    pub fn current_watermark(&self) -> (r: Option<i64>)
        ensures
            r == self.watermark(),
    {
        self.cursor
    }

    /// Whether the session may still poll.
    pub fn is_live(&self) -> (r: bool)
        ensures
            r == self.live(),
    {
        !self.failed
    }

    /// One tick of the watch loop, fed the outcome of one fetch.
    ///
    /// A snapshot is sorted stably by `listed_date`; the batch of items
    /// the watermark admits comes back in that order and the watermark
    /// advances over them.  A fetch error is handed through once and the
    /// session ends: no further tick is accepted.
    pub fn next_batch(&mut self, fetched: Result<Vec<Listing>, NFTFiError>) -> (r: Result<
        Vec<Listing>,
        NFTFiError,
    >)
        requires
            old(self).live(),
        ensures
            final(self).rate() == old(self).rate(),
            fetched is Ok ==> {
                &&& final(self).live()
                &&& r is Ok
                &&& r->Ok_0@ == emitted_seq(old(self).watermark(), sort_by_date(fetched->Ok_0@))
                &&& final(self).watermark() == advanced_cursor(
                    old(self).watermark(),
                    sort_by_date(fetched->Ok_0@),
                )
            },
            fetched is Err ==> {
                &&& !final(self).live()
                &&& r is Err
                &&& r->Err_0 == fetched->Err_0
                &&& final(self).watermark() == old(self).watermark()
            },
    {
        match fetched {
            Ok(snapshot) => {
                let sorted = sort_listings(snapshot);
                let (batch, cur) = emit_new(self.cursor, sorted);
                self.cursor = cur;
                Ok(batch)
            },
            Err(e) => {
                self.failed = true;
                Err(e)
            },
        }
    }
}

} // verus!
