//! The rolling set of segment files: how long each is, which ones stay, in which order they
//! are put together, and the wall-clock origin of the footage that is kept.

use vstd::prelude::*;

use crate::backend::capture::encoder;
use crate::util::clock::{Moment, NANOS_PER_SEC};
use crate::util::text::{characters, parse_u32, push_text, text_of};
use crate::util::{clock, double, text};

verus! {

/// The smallest integer that is not below `num / den`.
pub open spec fn ceil_div(num: nat, den: nat) -> nat {
    (num + den - 1) as nat / den
}

fn div_ceil(num: u32, den: u32) -> (q: u32)
    requires
        den > 0,
    ensures
        q == ceil_div(num as nat, den as nat),
{
    let q: u64 = (num as u64 + den as u64 - 1) / den as u64;
    assert(q <= num) by (nonlinear_arith)
        requires
            q == (num + den - 1) / den as int,
            den >= 1,
            num >= 0,
    ;
    q as u32
}

/// Seconds that one segment lasts: a tenth of the window, at least one second.
pub open spec fn segment_length(duration_secs: u32) -> nat {
    let tenth = ceil_div(duration_secs as nat, 10);
    if tenth < 1 {
        1
    } else {
        tenth
    }
}

/// How many segments stay: enough to cover the window, and the one that is being written.
pub open spec fn segments_kept(duration_secs: u32) -> nat {
    ceil_div(duration_secs as nat, segment_length(duration_secs)) + 1
}

/// How the footage is cut into segments.
#[derive(Debug, Clone, Copy, PartialEq, Eq, Structural)]
pub struct SegmentPlan {
    pub segment_seconds: u32,
    pub keep_segments: usize,
}

impl SegmentPlan {
    /// The plan for a window of `duration_secs` seconds.
    pub fn new(duration_secs: u32) -> (plan: SegmentPlan)
        ensures
            plan.segment_seconds == segment_length(duration_secs),
            plan.keep_segments == segments_kept(duration_secs),
    {
        let tenth: u32 = div_ceil(duration_secs, 10);
        let segment_seconds: u32 = if tenth < 1 {
            1
        } else {
            tenth
        };
        proof {
            lemma_window_is_covered(duration_secs);
        }
        let keep_segments: usize = div_ceil(duration_secs, segment_seconds) as usize + 1;
        SegmentPlan { segment_seconds, keep_segments }
    }
}

/// The segments that stay cover the window even without the one that is being written, and
/// exceed it by less than two segments; there are at most eleven of them.
pub proof fn lemma_window_is_covered(duration_secs: u32)
    ensures
        1 <= segment_length(duration_secs) <= u32::MAX,
        1 <= segments_kept(duration_secs) <= 11,
        (segments_kept(duration_secs) - 1) * segment_length(duration_secs) >= duration_secs,
        segments_kept(duration_secs) * segment_length(duration_secs) < duration_secs + 2
            * segment_length(duration_secs),
{
    let d = duration_secs as int;
    let len = segment_length(duration_secs) as int;
    let q = (d + len - 1) / len;
    assert(len >= 1 && 10 * len >= d);
    assert(q * len >= d && q * len < d + len && 0 <= q <= 10) by (nonlinear_arith)
        requires
            q == (d + len - 1) / len,
            len >= 1,
            d >= 0,
            10 * len >= d,
    ;
    assert((q + 1) * len == q * len + len) by (nonlinear_arith);
}

/// Where the last full stop of `name` stands, -1 where there is none.
pub open spec fn last_dot(name: Seq<char>) -> int
    decreases name.len(),
{
    if name.len() == 0 {
        -1
    } else if name.last() == '.' {
        name.len() - 1
    } else {
        last_dot(name.drop_last())
    }
}

/// The number of the segment that a file name denotes: `segment_`, the number, and the
/// extension `mp4`. A name that begins with its only full stop has no extension.
pub open spec fn segment_index(name: Seq<char>) -> Option<u32> {
    let dot = last_dot(name);
    let prefix = "segment_"@;
    if dot <= 0 || name.skip(dot + 1) != "mp4"@ {
        None
    } else if dot < prefix.len() || name.take(prefix.len() as int) != prefix {
        None
    } else {
        text::u32_of(name.subrange(prefix.len() as int, dot))
    }
}

fn find_last_dot(chars: &Vec<char>) -> (dot: Option<usize>)
    ensures
        match dot {
            Some(d) => d < chars.len() && d == last_dot(chars@),
            None => last_dot(chars@) == -1,
        },
{
    let mut i: usize = chars.len();
    assert(chars@.take(i as int) =~= chars@);
    while i > 0
        invariant
            i <= chars.len(),
            last_dot(chars@) == last_dot(chars@.take(i as int)),
        decreases i,
    {
        assert(chars@.take(i as int).last() == chars@[i - 1]);
        if chars[i - 1] == '.' {
            return Some(i - 1);
        }
        assert(chars@.take(i as int).drop_last() =~= chars@.take(i - 1));
        i -= 1;
    }
    None
}

fn range_is(chars: &Vec<char>, from: usize, to: usize, expected: &str) -> (same: bool)
    requires
        from <= to <= chars.len(),
    ensures
        same == (chars@.subrange(from as int, to as int) == expected@),
{
    let found = text_of(chars, from, to);
    let wanted = expected.to_owned();
    found == wanted
}

/// Reads the number of the segment out of a file name.
pub fn read_segment_index(name: &str) -> (index: Option<u32>)
    ensures
        index == segment_index(name@),
{
    let chars = characters(name);
    match find_last_dot(&chars) {
        None => None,
        Some(dot) => {
            let n: usize = chars.len();
            assert(chars@.subrange(dot + 1, n as int) =~= name@.skip(dot + 1));
            if dot == 0 || !range_is(&chars, dot + 1, n, "mp4") {
                return None;
            }
            let prefix = characters("segment_");
            let p: usize = prefix.len();
            if dot < p {
                return None;
            }
            assert(chars@.subrange(0, p as int) =~= name@.take(p as int));
            if !range_is(&chars, 0, p, "segment_") {
                return None;
            }
            parse_u32(&chars, p, dot)
        },
    }
}

/// The name that the encoder gives to the segment `index`.
pub open spec fn segment_name(index: u32) -> Seq<char> {
    "segment_"@ + text::zero_padded(index as nat, 5) + ".mp4"@
}

/// The number of a segment is read back from the name that the encoder gives to it.
pub proof fn lemma_segment_name_reads_back(index: u32)
    ensures
        segment_index(segment_name(index)) == Some(index),
{
    reveal_strlit("segment_");
    reveal_strlit(".mp4");
    reveal_strlit("mp4");
    let digits = text::zero_padded(index as nat, 5);
    let name = segment_name(index);
    text::lemma_zero_padded_reads_back(index as nat, 5);
    let dot = 8 + digits.len() as int;
    assert(name.len() == dot + 4);
    reveal_with_fuel(last_dot, 5);
    assert(name[dot] == '.' && name[dot + 1] == 'm' && name[dot + 2] == 'p' && name[dot + 3] == '4');
    let a = name.drop_last();
    let b = a.drop_last();
    let c = b.drop_last();
    assert(c.last() == '.');
    assert(last_dot(c) == dot);
    assert(last_dot(b) == dot);
    assert(last_dot(a) == dot);
    assert(last_dot(name) == dot);
    assert(name.skip(dot + 1) =~= "mp4"@);
    assert(name.take(8) =~= "segment_"@);
    assert(name.subrange(8, dot) =~= digits);
}

/// The segments among the files `names`, in the order of `names`.
pub open spec fn segments_among(names: Seq<String>) -> Seq<(u32, String)>
    decreases names.len(),
{
    if names.len() == 0 {
        Seq::empty()
    } else {
        let before = segments_among(names.drop_last());
        match segment_index(names.last()@) {
            Some(index) => before.push((index, names.last())),
            None => before,
        }
    }
}

/// The indices do not decrease.
pub open spec fn in_order(segments: Seq<(u32, String)>) -> bool {
    forall|i: int, j: int| 0 <= i <= j < segments.len() ==> segments[i].0 <= segments[j].0
}

/// The segments with the index `index`, in their order.
pub open spec fn indexed(segments: Seq<(u32, String)>, index: u32) -> Seq<(u32, String)> {
    segments.filter(|s: (u32, String)| s.0 == index)
}

/// `sorted` holds the segments of `found` by ascending index, and those of equal index in
/// the order in which they were found.
pub open spec fn is_listing(sorted: Seq<(u32, String)>, found: Seq<(u32, String)>) -> bool {
    &&& in_order(sorted)
    &&& sorted.len() == found.len()
    &&& forall|index: u32| #[trigger] indexed(sorted, index) == indexed(found, index)
}

proof fn lemma_none_indexed(segments: Seq<(u32, String)>, index: u32)
    requires
        forall|i: int| 0 <= i < segments.len() ==> segments[i].0 != index,
    ensures
        indexed(segments, index) == Seq::<(u32, String)>::empty(),
    decreases segments.len(),
{
    reveal(Seq::filter);
    if segments.len() > 0 {
        lemma_none_indexed(segments.drop_last(), index);
    }
}

proof fn lemma_insertion_keeps_listing(
    sorted: Seq<(u32, String)>,
    found: Seq<(u32, String)>,
    at: int,
    segment: (u32, String),
)
    requires
        is_listing(sorted, found),
        0 <= at <= sorted.len(),
        forall|i: int| 0 <= i < at ==> sorted[i].0 <= segment.0,
        forall|i: int| at <= i < sorted.len() ==> segment.0 < sorted[i].0,
    ensures
        is_listing(sorted.insert(at, segment), found.push(segment)),
{
    let grown = sorted.insert(at, segment);
    let low = sorted.take(at);
    let high = sorted.skip(at);
    let one = seq![segment];
    assert(grown =~= low + one + high);
    assert(sorted =~= low + high);
    assert(found.push(segment) =~= found + one);
    assert forall|index: u32| #[trigger] indexed(grown, index) == indexed(
        found.push(segment),
        index,
    ) by {
        let pred = |s: (u32, String)| s.0 == index;
        Seq::filter_distributes_over_add(low + one, high, pred);
        Seq::filter_distributes_over_add(low, one, pred);
        Seq::filter_distributes_over_add(low, high, pred);
        Seq::filter_distributes_over_add(found, one, pred);
        assert(indexed(sorted, index) == indexed(found, index));
        if index == segment.0 {
            lemma_none_indexed(high, index);
        } else {
            lemma_none_indexed(one, index);
        }
        assert(indexed(grown, index) =~= indexed(found.push(segment), index));
    }
    assert forall|i: int, j: int| 0 <= i <= j < grown.len() implies grown[i].0 <= grown[j].0 by {
        if i < at && j > at {
            assert(sorted[i].0 <= sorted[j - 1].0);
        }
    }
}

/// The segments among the files `names`, listed.
pub open spec fn listing(names: Seq<String>) -> Seq<(u32, String)> {
    choose|sorted: Seq<(u32, String)>| is_listing(sorted, segments_among(names))
}

proof fn lemma_indexed_last(segments: Seq<(u32, String)>, index: u32)
    requires
        segments.len() > 0,
    ensures
        indexed(segments, index) == if segments.last().0 == index {
            indexed(segments.drop_last(), index).push(segments.last())
        } else {
            indexed(segments.drop_last(), index)
        },
{
    reveal(Seq::filter);
}

proof fn lemma_last_is_shared(a: Seq<(u32, String)>, b: Seq<(u32, String)>)
    requires
        in_order(b),
        a.len() > 0,
        forall|index: u32| #[trigger] indexed(a, index) == indexed(b, index),
    ensures
        b.len() > 0,
        b.last().0 >= a.last().0,
{
    let top = a.last().0;
    lemma_indexed_last(a, top);
    assert(indexed(a, top).len() > 0);
    assert(indexed(b, top).len() > 0);
    if forall|i: int| 0 <= i < b.len() ==> b[i].0 != top {
        lemma_none_indexed(b, top);
    }
    let i = choose|i: int| 0 <= i < b.len() && b[i].0 == top;
    assert(b[i].0 <= b[b.len() - 1].0);
}

proof fn lemma_orders_agree(a: Seq<(u32, String)>, b: Seq<(u32, String)>)
    requires
        in_order(a),
        in_order(b),
        forall|index: u32| #[trigger] indexed(a, index) == indexed(b, index),
    ensures
        a == b,
    decreases a.len() + b.len(),
{
    if a.len() == 0 {
        if b.len() > 0 {
            lemma_last_is_shared(b, a);
        }
        assert(a =~= b);
    } else {
        lemma_last_is_shared(a, b);
        lemma_last_is_shared(b, a);
        let top = a.last().0;
        lemma_indexed_last(a, top);
        lemma_indexed_last(b, top);
        assert(indexed(a, top).last() == indexed(b, top).last());
        assert forall|index: u32| #[trigger] indexed(a.drop_last(), index) == indexed(
            b.drop_last(),
            index,
        ) by {
            lemma_indexed_last(a, index);
            lemma_indexed_last(b, index);
            assert(indexed(a, index) == indexed(b, index));
            if index == top {
                assert(indexed(a, index).drop_last() =~= indexed(a.drop_last(), index));
                assert(indexed(b, index).drop_last() =~= indexed(b.drop_last(), index));
            }
        }
        lemma_orders_agree(a.drop_last(), b.drop_last());
        assert(a =~= a.drop_last().push(a.last()));
        assert(b =~= b.drop_last().push(b.last()));
    }
}

/// There is only one way to list the segments of a directory.
pub proof fn lemma_listing_is_unique(sorted: Seq<(u32, String)>, names: Seq<String>)
    requires
        is_listing(sorted, segments_among(names)),
    ensures
        sorted == listing(names),
        is_listing(listing(names), segments_among(names)),
{
    let other = listing(names);
    assert(is_listing(other, segments_among(names)));
    assert forall|index: u32| #[trigger] indexed(sorted, index) == indexed(other, index) by {
        assert(indexed(sorted, index) == indexed(segments_among(names), index));
    }
    lemma_orders_agree(sorted, other);
}

proof fn lemma_place_for(sorted: Seq<(u32, String)>, index: u32) -> (at: int)
    requires
        in_order(sorted),
    ensures
        0 <= at <= sorted.len(),
        forall|i: int| 0 <= i < at ==> sorted[i].0 <= index,
        forall|i: int| at <= i < sorted.len() ==> index < sorted[i].0,
    decreases sorted.len(),
{
    if sorted.len() == 0 {
        0
    } else if sorted.last().0 <= index {
        assert forall|i: int| 0 <= i < sorted.len() implies sorted[i].0 <= index by {
            assert(sorted[i].0 <= sorted[sorted.len() - 1].0);
        }
        sorted.len() as int
    } else {
        let rest = sorted.drop_last();
        let at = lemma_place_for(rest, index);
        assert forall|i: int| 0 <= i < at implies sorted[i].0 <= index by {
            assert(rest[i].0 <= index);
        }
        assert forall|i: int| at <= i < sorted.len() implies index < sorted[i].0 by {
            if i < rest.len() {
                assert(index < rest[i].0);
            }
        }
        at
    }
}

/// The segments of a directory can always be listed: all of them, in chronological order.
pub proof fn lemma_listing_exists(names: Seq<String>)
    ensures
        is_listing(listing(names), segments_among(names)),
        listing(names).len() <= names.len(),
    decreases names.len(),
{
    if names.len() == 0 {
        assert(is_listing(Seq::<(u32, String)>::empty(), segments_among(names)));
    } else {
        lemma_listing_exists(names.drop_last());
        let before = listing(names.drop_last());
        if let Some(index) = segment_index(names.last()@) {
            let segment = (index, names.last());
            let at = lemma_place_for(before, index);
            lemma_insertion_keeps_listing(before, segments_among(names.drop_last()), at, segment);
            lemma_listing_is_unique(before.insert(at, segment), names);
        } else {
            lemma_listing_is_unique(before, names);
        }
    }
}

/// Lists the segments among the files `names` of a directory, sorted ascending by their
/// numeric index (which is also chronological order).
pub fn list_segments(names: &Vec<String>) -> (segments: Vec<(u32, String)>)
    ensures
        is_listing(segments@, segments_among(names@)),
        segments@ == listing(names@),
{
    let mut segments: Vec<(u32, String)> = Vec::new();
    let mut i: usize = 0;
    while i < names.len()
        invariant
            i <= names.len(),
            is_listing(segments@, segments_among(names@.take(i as int))),
        decreases names.len() - i,
    {
        assert(names@.take(i + 1).drop_last() =~= names@.take(i as int));
        let name: &String = &names[i];
        if let Some(index) = read_segment_index(name.as_str()) {
            let mut at: usize = segments.len();
            while at > 0 && segments[at - 1].0 > index
                invariant
                    at <= segments.len(),
                    forall|k: int| at <= k < segments.len() ==> index < segments@[k].0,
                decreases at,
            {
                at -= 1;
            }
            let segment = (index, name.clone());
            proof {
                assert forall|k: int| 0 <= k < at implies segments@[k].0 <= index by {
                    assert(segments@[k].0 <= segments@[at - 1].0);
                }
                lemma_insertion_keeps_listing(
                    segments@,
                    segments_among(names@.take(i as int)),
                    at as int,
                    segment,
                );
            }
            segments.insert(at, segment);
        }
        i += 1;
    }
    assert(names@.take(i as int) =~= names@);
    proof {
        lemma_listing_is_unique(segments@, names@);
    }
    segments
}

/// How many of `count` segments go when `keep` are to stay. The newest one, which the encoder is
/// still writing, stays in any case.
pub open spec fn stale_count(count: nat, keep: nat) -> nat {
    if count <= clock::at_least_one(keep) {
        0
    } else {
        (count - clock::at_least_one(keep)) as nat
    }
}

/// The names of a row of segments.
pub open spec fn names_of(segments: Seq<(u32, String)>) -> Seq<Seq<char>> {
    segments.map_values(|s: (u32, String)| s.1@)
}

/// The names of the oldest segments, which are to be deleted so that only the newest `keep`
/// stay.
///
/// The highest-indexed segment (the one that is being written) is always part of the kept set,
/// so it is never removed while still in use.
pub fn prune_old_segments(segments: &Vec<(u32, String)>, keep: usize) -> (stale: Vec<String>)
    ensures
        text::texts(stale@) == names_of(
            segments@.take(stale_count(segments@.len(), keep as nat) as int),
        ),
{
    let mut stale: Vec<String> = Vec::new();
    let kept: usize = if keep == 0 {
        1
    } else {
        keep
    };
    if segments.len() <= kept {
        assert(text::texts(stale@) =~= names_of(segments@.take(0)));
        return stale;
    }
    let remove_count: usize = segments.len() - kept;
    let mut i: usize = 0;
    while i < remove_count
        invariant
            i <= remove_count <= segments.len(),
            text::texts(stale@) == names_of(segments@.take(i as int)),
        decreases remove_count - i,
    {
        push_text(&mut stale, segments[i].1.as_str());
        i += 1;
        assert(names_of(segments@.take(i as int)) =~= names_of(segments@.take(i - 1)).push(
            segments@[i - 1].1@,
        ));
    }
    stale
}

/// Pruning an ordered listing leaves at most `keep` segments (but at least one where there is
/// any), all of them at least as new as any that go, and always the newest one, which the
/// encoder is still writing.
pub proof fn lemma_pruning_keeps_the_newest(segments: Seq<(u32, String)>, keep: nat)
    requires
        in_order(segments),
    ensures
        ({
            let gone = segments.take(stale_count(segments.len(), keep) as int);
            let kept = segments.skip(stale_count(segments.len(), keep) as int);
            &&& kept.len() <= clock::at_least_one(keep)
            &&& segments.len() > 0 ==> kept.len() > 0 && kept.last() == segments.last()
            &&& in_order(kept)
            &&& forall|i: int, j: int|
                0 <= i < gone.len() && 0 <= j < kept.len() ==> gone[i].0 <= kept[j].0
            &&& gone + kept == segments
        }),
{
    let n = stale_count(segments.len(), keep) as int;
    assert(segments.take(n) + segments.skip(n) =~= segments);
    assert forall|i: int, j: int|
        0 <= i < segments.take(n).len() && 0 <= j < segments.skip(n).len() implies segments.take(
        n,
    )[i].0 <= segments.skip(n)[j].0 by {
        assert(segments[i].0 <= segments[n + j].0);
    }
}

/// No two names are the same, as in a directory.
pub open spec fn all_distinct(names: Seq<String>) -> bool {
    forall|i: int, j: int| 0 <= i < j < names.len() ==> names[i]@ != names[j]@
}

/// No two segments have the same name.
pub open spec fn distinctly_named(segments: Seq<(u32, String)>) -> bool {
    forall|i: int, j: int| 0 <= i < j < segments.len() ==> segments[i].1@ != segments[j].1@
}

/// The files that are left of `names` once those called `gone` have been deleted.
pub open spec fn left_of(names: Seq<String>, gone: Seq<Seq<char>>) -> Seq<String> {
    names.filter(|name: String| !gone.contains(name@))
}

/// The segments whose names are not among `gone`.
pub open spec fn spared(segments: Seq<(u32, String)>, gone: Seq<Seq<char>>) -> Seq<(u32, String)> {
    segments.filter(|s: (u32, String)| !gone.contains(s.1@))
}

proof fn lemma_listed_names(names: Seq<String>)
    requires
        all_distinct(names),
    ensures
        distinctly_named(listing(names)),
        forall|i: int|
            0 <= i < listing(names).len() ==> exists|j: int|
                0 <= j < names.len() && names[j] == (#[trigger] listing(names)[i]).1,
    decreases names.len(),
{
    lemma_listing_exists(names);
    if names.len() > 0 {
        let rest = names.drop_last();
        assert(all_distinct(rest)) by {
            assert forall|i: int, j: int| 0 <= i < j < rest.len() implies rest[i]@ != rest[j]@ by {
                assert(names[i]@ != names[j]@);
            }
        }
        lemma_listed_names(rest);
        lemma_listing_exists(rest);
        let before = listing(rest);
        let now = listing(names);
        assert forall|i: int| 0 <= i < before.len() implies (#[trigger] before[i]).1@
            != names.last()@ && exists|j: int| 0 <= j < names.len() && names[j] == before[i].1 by {
            let j = choose|j: int| 0 <= j < rest.len() && rest[j] == before[i].1;
            assert(names[j]@ != names[names.len() - 1]@);
            assert(names[j] == before[i].1);
        }
        if let Some(index) = segment_index(names.last()@) {
            let segment = (index, names.last());
            let at = lemma_place_for(before, index);
            lemma_insertion_keeps_listing(before, segments_among(rest), at, segment);
            lemma_listing_is_unique(before.insert(at, segment), names);
            assert forall|i: int| 0 <= i < now.len() implies exists|j: int|
                0 <= j < names.len() && names[j] == (#[trigger] now[i]).1 by {
                if i == at {
                    assert(names[names.len() - 1] == now[i].1);
                } else if i < at {
                    assert(now[i] == before[i]);
                } else {
                    assert(now[i] == before[i - 1]);
                }
            }
            assert forall|i: int, j: int| 0 <= i < j < now.len() implies now[i].1@ != now[j].1@ by {
                let from = if i < at { i } else { i - 1 };
                let to = if j < at { j } else { j - 1 };
                if i != at {
                    assert(now[i] == before[from]);
                }
                if j != at {
                    assert(now[j] == before[to]);
                }
            }
        } else {
            lemma_listing_is_unique(before, names);
        }
    }
}

proof fn lemma_segments_left(names: Seq<String>, gone: Seq<Seq<char>>)
    ensures
        segments_among(left_of(names, gone)) == spared(segments_among(names), gone),
    decreases names.len(),
{
    reveal(Seq::filter);
    if names.len() > 0 {
        let rest = names.drop_last();
        lemma_segments_left(rest, gone);
        let found = segments_among(names);
        if let Some(index) = segment_index(names.last()@) {
            assert(found.drop_last() =~= segments_among(rest));
        }
        if !gone.contains(names.last()@) {
            assert(left_of(names, gone).drop_last() =~= left_of(rest, gone));
        }
    }
}

proof fn lemma_spared_indexed(segments: Seq<(u32, String)>, gone: Seq<Seq<char>>, index: u32)
    ensures
        indexed(spared(segments, gone), index) == spared(indexed(segments, index), gone),
    decreases segments.len(),
{
    reveal(Seq::filter);
    if segments.len() > 0 {
        let rest = segments.drop_last();
        lemma_spared_indexed(rest, gone, index);
        if !gone.contains(segments.last().1@) {
            assert(spared(segments, gone).drop_last() =~= spared(rest, gone));
        }
        if segments.last().0 == index {
            assert(indexed(segments, index).drop_last() =~= indexed(rest, index));
        }
    }
}

proof fn lemma_spared_all(segments: Seq<(u32, String)>, gone: Seq<Seq<char>>, spare: bool)
    requires
        forall|i: int|
            0 <= i < segments.len() ==> gone.contains((#[trigger] segments[i]).1@) == !spare,
    ensures
        spared(segments, gone) == if spare {
            segments
        } else {
            Seq::empty()
        },
    decreases segments.len(),
{
    reveal(Seq::filter);
    if segments.len() > 0 {
        let rest = segments.drop_last();
        assert forall|i: int| 0 <= i < rest.len() implies gone.contains((#[trigger] rest[i]).1@)
            == !spare by {
            assert(gone.contains(segments[i].1@) == !spare);
        }
        lemma_spared_all(rest, gone, spare);
        assert(gone.contains(segments[segments.len() - 1].1@) == !spare);
        assert(spared(segments, gone) =~= if spare {
            segments
        } else {
            Seq::empty()
        });
    } else {
        assert(spared(segments, gone) =~= Seq::<(u32, String)>::empty());
    }
}

proof fn lemma_listed_indices(names: Seq<String>)
    ensures
        forall|i: int|
            0 <= i < listing(names).len() ==> segment_index((#[trigger] listing(names)[i]).1@)
                == Some(listing(names)[i].0),
    decreases names.len(),
{
    lemma_listing_exists(names);
    if names.len() > 0 {
        let rest = names.drop_last();
        lemma_listed_indices(rest);
        lemma_listing_exists(rest);
        let before = listing(rest);
        let now = listing(names);
        if let Some(index) = segment_index(names.last()@) {
            let segment = (index, names.last());
            let at = lemma_place_for(before, index);
            lemma_insertion_keeps_listing(before, segments_among(rest), at, segment);
            lemma_listing_is_unique(before.insert(at, segment), names);
            assert forall|i: int| 0 <= i < now.len() implies segment_index((#[trigger] now[i]).1@)
                == Some(now[i].0) by {
                if i < at {
                    assert(now[i] == before[i]);
                } else if i > at {
                    assert(now[i] == before[i - 1]);
                }
            }
        } else {
            lemma_listing_is_unique(before, names);
        }
    }
}

proof fn lemma_filter_holds(names: Seq<String>, i: int, pred: spec_fn(String) -> bool)
    requires
        0 <= i < names.len(),
        pred(names[i]),
    ensures
        names.filter(pred).contains(names[i]),
    decreases names.len(),
{
    reveal(Seq::filter);
    let rest = names.drop_last();
    if i < rest.len() {
        lemma_filter_holds(rest, i, pred);
        let k = choose|k: int| 0 <= k < rest.filter(pred).len() && rest.filter(pred)[k] == names[i];
        assert(names.filter(pred)[k] == names[i]);
    } else {
        assert(names.filter(pred).last() == names[i]);
    }
}

proof fn lemma_newest_are_spared(old: Seq<(u32, String)>, count: int)
    requires
        distinctly_named(old),
        0 <= count <= old.len(),
    ensures
        spared(old, names_of(old.take(count))) == old.skip(count),
{
    let low = old.take(count);
    let high = old.skip(count);
    let gone = names_of(low);
    assert(low + high =~= old);
    assert forall|i: int| 0 <= i < low.len() implies gone.contains((#[trigger] low[i]).1@)
        == !false by {
        assert(gone[i] == low[i].1@);
    }
    assert forall|i: int| 0 <= i < high.len() implies gone.contains((#[trigger] high[i]).1@)
        == !true by {
        if gone.contains(high[i].1@) {
            let j = choose|j: int| 0 <= j < gone.len() && gone[j] == high[i].1@;
            assert(old[j].1@ != old[count + i].1@);
        }
    }
    lemma_spared_all(low, gone, false);
    lemma_spared_all(high, gone, true);
    Seq::filter_distributes_over_add(low, high, |s: (u32, String)| !gone.contains(s.1@));
    assert(spared(old, gone) =~= high);
}

proof fn lemma_listing_of_the_left(names: Seq<String>, gone: Seq<Seq<char>>)
    requires
        in_order(spared(listing(names), gone)),
    ensures
        listing(left_of(names, gone)) == spared(listing(names), gone),
{
    let old = listing(names);
    let left = left_of(names, gone);
    lemma_listing_exists(names);
    lemma_listing_exists(left);
    lemma_segments_left(names, gone);
    assert forall|index: u32| #[trigger] indexed(listing(left), index) == indexed(
        spared(old, gone),
        index,
    ) by {
        assert(indexed(listing(left), index) == indexed(segments_among(left), index));
        assert(indexed(old, index) == indexed(segments_among(names), index));
        lemma_spared_indexed(segments_among(names), gone, index);
        lemma_spared_indexed(old, gone, index);
    }
    lemma_orders_agree(listing(left), spared(old, gone));
}

proof fn lemma_other_files_stay(names: Seq<String>, count: int, i: int)
    requires
        0 <= count <= listing(names).len(),
        0 <= i < names.len(),
        segment_index(names[i]@) is None,
    ensures
        left_of(names, names_of(listing(names).take(count))).contains(names[i]),
{
    let old = listing(names);
    let gone = names_of(old.take(count));
    lemma_listed_indices(names);
    if gone.contains(names[i]@) {
        let j = choose|j: int| 0 <= j < gone.len() && gone[j] == names[i]@;
        assert(segment_index(old[j].1@) == Some(old[j].0));
    }
    lemma_filter_holds(names, i, |name: String| !gone.contains(name@));
}

/// Once the stale segments of a directory are deleted, its listing is just the newest `keep`
/// segments, in their order; no other file is touched, and pruning again deletes nothing.
pub proof fn lemma_pruning_leaves_the_newest(names: Seq<String>, keep: nat)
    requires
        all_distinct(names),
    ensures
        ({
            let old = listing(names);
            let count = stale_count(old.len(), keep) as int;
            let left = left_of(names, names_of(old.take(count)));
            &&& listing(left) == old.skip(count)
            &&& stale_count(listing(left).len(), keep) == 0
            &&& forall|i: int|
                0 <= i < names.len() && segment_index((#[trigger] names[i])@) is None
                    ==> left.contains(names[i])
        }),
{
    let old = listing(names);
    let count = stale_count(old.len(), keep) as int;
    let gone = names_of(old.take(count));
    lemma_listing_exists(names);
    lemma_listed_names(names);
    lemma_newest_are_spared(old, count);
    lemma_listing_of_the_left(names, gone);
    assert forall|i: int|
        0 <= i < names.len() && segment_index((#[trigger] names[i])@) is None implies left_of(
        names,
        gone,
    ).contains(names[i]) by {
        lemma_other_files_stay(names, count, i);
    }
}

/// However long a recording runs, pruning bounds the footage to roughly the window: what
/// stays lasts less than two segments longer than the window, and where anything was dropped,
/// what stays covers the window even without the segment that is still being written.
pub proof fn lemma_footage_is_bounded(segments: Seq<(u32, String)>, duration_secs: u32)
    ensures
        ({
            let keep = segments_kept(duration_secs);
            let kept = segments.skip(stale_count(segments.len(), keep) as int);
            &&& kept.len() * segment_length(duration_secs) < duration_secs + 2 * segment_length(
                duration_secs,
            )
            &&& stale_count(segments.len(), keep) > 0 ==> (kept.len() - 1) * segment_length(
                duration_secs,
            ) >= duration_secs
        }),
{
    lemma_window_is_covered(duration_secs);
    let keep = segments_kept(duration_secs) as int;
    let len = segment_length(duration_secs) as int;
    let kept = segments.skip(stale_count(segments.len(), keep as nat) as int).len() as int;
    assert(kept * len <= keep * len) by (nonlinear_arith)
        requires
            kept <= keep,
            len >= 1,
    ;
}

/// The index of the first segment in a listing, zero where there is none.
pub open spec fn first_index_of(segments: Seq<(u32, String)>) -> u32 {
    if segments.len() > 0 {
        segments[0].0
    } else {
        0
    }
}

/// The index of the first segment in a listing, zero where there is none.
pub fn first_index(segments: &Vec<(u32, String)>) -> (index: u32)
    ensures
        index == first_index_of(segments@),
{
    if segments.len() > 0 {
        segments[0].0
    } else {
        0
    }
}

/// Nanoseconds on the video timeline before the segment `index`.
pub open spec fn dropped_nanos(index: u32, segment_seconds: u32) -> nat {
    index as nat * segment_seconds as nat * NANOS_PER_SEC as nat
}

/// What the encoder produced once the video side has been finalized.
pub struct VideoOutput {
    /// Video-only file (no audio track yet).
    pub path: String,
    /// Wall-clock moment that presentation time 0 of `path` corresponds to.
    pub start: Moment,
}

/// The wall-clock moment at which the footage that is kept begins: pruning drops the oldest
/// segments, so it lies `first_index` segments behind the first captured frame.
pub fn video_start(first_frame: Moment, first_index: u32, segment_seconds: u32) -> (start: Moment)
    requires
        first_frame.nanos + dropped_nanos(first_index, segment_seconds) <= u64::MAX,
    ensures
        start.nanos == first_frame.nanos + dropped_nanos(first_index, segment_seconds),
{
    assert(first_index * segment_seconds <= u32::MAX * u32::MAX) by (nonlinear_arith)
        requires
            0 <= first_index <= u32::MAX,
            0 <= segment_seconds <= u32::MAX,
    ;
    let secs: u64 = first_index as u64 * segment_seconds as u64;
    Moment { nanos: first_frame.nanos + secs * NANOS_PER_SEC }
}

/// The video output after merging: there is one if and only if at least one segment was
/// merged.
pub fn finalize_video(start: Moment, merged: Result<usize, String>, path: String) -> (output: Option<
    VideoOutput,
>)
    ensures
        output is Some <==> (merged matches Ok(n) && n > 0),
        output matches Some(video) ==> video.path == path && video.start == start,
{
    match merged {
        Ok(n) => if n > 0 {
            Some(VideoOutput { path, start })
        } else {
            None
        },
        Err(_) => None,
    }
}

/// The footage that is kept begins exactly as many frame slots behind the first frame as the
/// dropped segments hold, as long as their number has at most 53 bits.
pub proof fn lemma_video_start_is_a_segment_boundary(
    first_frame: Moment,
    start: Moment,
    fps: u32,
    index: u32,
    segment_seconds: u32,
)
    requires
        start.nanos == first_frame.nanos + dropped_nanos(index, segment_seconds),
        (index as nat * segment_seconds as nat * fps as nat) < double::BEYOND,
    ensures
        encoder::slot_at(first_frame, fps, start) == index as nat * segment_seconds as nat
            * fps as nat,
{
    let secs = index as nat * segment_seconds as nat;
    assert(secs >= 0) by (nonlinear_arith)
        requires
            secs == index as int * segment_seconds as int,
    ;
    assert(start.since(first_frame) == secs * NANOS_PER_SEC as nat);
    assert(secs < double::BEYOND) by (nonlinear_arith)
        requires
            secs * 1_000_000_000 <= 0xffff_ffff_ffff_ffff,
            double::BEYOND == 0x20_0000_0000_0000,
    ;
    double::lemma_whole_seconds_are_exact(secs, fps as nat);
}

/// A segment lasts the least whole number of seconds of which ten cover the window, and as few
/// segments are kept as cover it, and one more.
pub proof fn lemma_window_is_cut_in_ten(duration_secs: u32)
    ensures
        ({
            let length = segment_length(duration_secs) as int;
            let kept = segments_kept(duration_secs) as int;
            &&& length >= 1 && 10 * length >= duration_secs
            &&& length == 1 || 10 * (length - 1) < duration_secs
            &&& kept >= 1 && (kept - 1) * length >= duration_secs
            &&& kept == 1 || (kept - 2) * length < duration_secs
        }),
{
    lemma_window_is_covered(duration_secs);
    let d = duration_secs as int;
    let len = segment_length(duration_secs) as int;
    let q = (d + len - 1) / len;
    assert((q - 1) * len < d || q == 0) by (nonlinear_arith)
        requires
            q == (d + len - 1) / len,
            len >= 1,
            d >= 0,
    ;
}

proof fn lemma_last_dot_bounds(name: Seq<char>)
    ensures
        -1 <= last_dot(name) < name.len(),
        last_dot(name) >= 0 ==> name[last_dot(name)] == '.',
        forall|i: int| last_dot(name) < i < name.len() ==> name[i] != '.',
    decreases name.len(),
{
    if name.len() > 0 && name.last() != '.' {
        let rest = name.drop_last();
        lemma_last_dot_bounds(rest);
        assert forall|i: int| last_dot(name) < i < name.len() implies name[i] != '.' by {
            if i < rest.len() {
                assert(rest[i] != '.');
            }
        }
        if last_dot(name) >= 0 {
            assert(rest[last_dot(name)] == '.');
        }
    }
}

/// The files that are segments are those called `segment_`, a number, and `.mp4`, and no others;
/// the number is their index.
pub proof fn lemma_segments_are_called_by_number(name: Seq<char>, number: Seq<char>, index: u32)
    ensures
        text::u32_of(number) == Some(index) ==> segment_index("segment_"@ + number + ".mp4"@)
            == Some(index),
        segment_index(name) == Some(index) ==> exists|digits: Seq<char>|
            name == #[trigger] ("segment_"@ + digits + ".mp4"@) && text::u32_of(digits) == Some(
                index,
            ),
{
    reveal_strlit("segment_");
    reveal_strlit(".mp4");
    reveal_strlit("mp4");
    let called = "segment_"@ + number + ".mp4"@;
    let end = 8 + number.len() as int;
    lemma_last_dot_bounds(called);
    assert(called[end] == '.' && called[end + 1] == 'm' && called[end + 2] == 'p' && called[end + 3]
        == '4');
    assert(called.len() == end + 4);
    assert(last_dot(called) == end);
    assert(called.skip(end + 1) =~= "mp4"@);
    assert(called.take(8) =~= "segment_"@);
    assert(called.subrange(8, end) =~= number);
    if segment_index(name) == Some(index) {
        lemma_last_dot_bounds(name);
        let dot = last_dot(name);
        let digits = name.subrange(8, dot);
        assert(name.skip(dot + 1).len() == 3);
        assert forall|i: int| 0 <= i < name.len() implies name[i] == ("segment_"@ + digits
            + ".mp4"@)[i] by {
            if i < 8 {
                assert(name.take(8)[i] == name[i]);
            } else if i > dot {
                assert(name.skip(dot + 1)[i - dot - 1] == name[i]);
            }
        }
        assert(name =~= "segment_"@ + digits + ".mp4"@);
    }
}

/// A listing holds the segments of the directory and nothing else: every file with a number stands
/// in it under that number, every entry is such a file, the numbers do not decrease, and where no
/// two files have the same name, no two entries do.
pub proof fn lemma_listing_is_complete(names: Seq<String>)
    ensures
        forall|j: int|
            0 <= j < names.len() && segment_index((#[trigger] names[j])@) is Some
                ==> listing(names).contains((segment_index(names[j]@)->0, names[j])),
        forall|i: int|
            0 <= i < listing(names).len() ==> names.contains((#[trigger] listing(names)[i]).1)
                && segment_index(listing(names)[i].1@) == Some(listing(names)[i].0),
        forall|i: int, j: int|
            0 <= i <= j < listing(names).len() ==> (#[trigger] listing(names)[i]).0 <= (
            #[trigger] listing(names)[j]).0,
        all_distinct(names) ==> distinctly_named(listing(names)),
    decreases names.len(),
{
    lemma_listing_exists(names);
    lemma_listed_indices(names);
    let now = listing(names);
    if all_distinct(names) {
        lemma_listed_names(names);
    }
    if names.len() > 0 {
        let rest = names.drop_last();
        lemma_listing_is_complete(rest);
        lemma_listing_exists(rest);
        let before = listing(rest);
        if let Some(index) = segment_index(names.last()@) {
            let segment = (index, names.last());
            let at = lemma_place_for(before, index);
            lemma_insertion_keeps_listing(before, segments_among(rest), at, segment);
            lemma_listing_is_unique(before.insert(at, segment), names);
            assert(now[at] == segment);
            assert forall|j: int|
                0 <= j < names.len() && segment_index((#[trigger] names[j])@) is Some implies now.contains(
            (segment_index(names[j]@)->0, names[j])) by {
                if j < rest.len() {
                    assert(rest[j] == names[j]);
                    let entry = (segment_index(names[j]@)->0, names[j]);
                    let k = choose|k: int| 0 <= k < before.len() && before[k] == entry;
                    if k < at {
                        assert(now[k] == entry);
                    } else {
                        assert(now[k + 1] == entry);
                    }
                }
            }
            assert forall|i: int| 0 <= i < now.len() implies names.contains((#[trigger] now[i]).1) by {
                if i == at {
                    assert(names[names.len() - 1] == now[i].1);
                } else {
                    let k = if i < at { i } else { i - 1 };
                    assert(now[i] == before[k]);
                    let j = choose|j: int| 0 <= j < rest.len() && rest[j] == before[k].1;
                    assert(names[j] == now[i].1);
                }
            }
        } else {
            lemma_listing_is_unique(before, names);
            assert forall|j: int|
                0 <= j < names.len() && segment_index((#[trigger] names[j])@) is Some implies now.contains(
            (segment_index(names[j]@)->0, names[j])) by {
                assert(rest[j] == names[j]);
            }
            assert forall|i: int| 0 <= i < now.len() implies names.contains((#[trigger] now[i]).1) by {
                let j = choose|j: int| 0 <= j < rest.len() && rest[j] == now[i].1;
                assert(names[j] == now[i].1);
            }
        }
    }
}

/// Just so many segments go that `keep` stay, and where that is none, one; where there are no more
/// than that, none go. Those that go are the first of the listing, in its order.
pub proof fn lemma_just_the_surplus_goes(segments: Seq<(u32, String)>, keep: nat)
    ensures
        ({
            let count = segments.len();
            let gone = names_of(segments.take(stale_count(count, keep) as int));
            &&& keep >= 1 && count >= keep ==> gone.len() + keep == count
            &&& keep >= 1 && count <= keep ==> gone.len() == 0
            &&& keep == 0 && count >= 1 ==> gone.len() + 1 == count
            &&& count == 0 ==> gone.len() == 0
            &&& forall|i: int| 0 <= i < gone.len() ==> #[trigger] gone[i] == segments[i].1@
        }),
{
}

/// The first index of a directory is the least one among its segments, and zero where it has none.
/// So many segments were dropped before it, each of its full length.
pub proof fn lemma_first_index_is_the_least(
    names: Seq<String>,
    j: int,
    index: u32,
    segment_seconds: u32,
)
    requires
        0 <= j < names.len(),
        segment_index(names[j]@) is Some,
    ensures
        first_index_of(listing(names)) <= segment_index(names[j]@)->0,
        exists|k: int|
            0 <= k < names.len() && segment_index((#[trigger] names[k])@) == Some(
                first_index_of(listing(names)),
            ),
        first_index_of(Seq::empty()) == 0,
        dropped_nanos(index, segment_seconds) == index * segment_seconds * 1_000_000_000,
{
    lemma_listing_is_complete(names);
    let found = listing(names);
    let entry = (segment_index(names[j]@)->0, names[j]);
    let k = choose|k: int| 0 <= k < found.len() && found[k] == entry;
    assert(found[0].0 <= found[k].0);
    assert(names.contains(found[0].1));
    let m = choose|m: int| 0 <= m < names.len() && names[m] == found[0].1;
    assert(segment_index(names[m]@) == Some(first_index_of(found)));
}

} // verus!
