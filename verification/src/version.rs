//! Version numbers: which texts are plain versions, how they are ordered, and
//! which of them a request selects.

use crate::number::parse_number;
use crate::text::{begins_with, chars_of, same_text, split_on, string_of};
use vstd::prelude::*;
use vstd::string::*;

verus! {

/// The parts of a version between its dots.
pub open spec fn parts(version: Seq<char>) -> Seq<Seq<char>> {
    crate::text::split(version, seq!['.'])
}

/// A version of two to four dotted numbers.
pub open spec fn is_plain(version: Seq<char>) -> bool {
    &&& 2 <= parts(version).len() <= 4
    &&& forall|i: int|
        0 <= i < parts(version).len() ==> (#[trigger] parts(version)[i]).len() > 0
            && crate::number::all_digits(parts(version)[i])
}

/// The number that ranks a version at level `level`: that of its part, or zero
/// where there is none or it is no number.
pub open spec fn rank(version: Seq<char>, level: int) -> nat {
    if level < parts(version).len() {
        match crate::number::parsed_number(parts(version)[level], u32::MAX as nat) {
            Some(number) => number,
            None => 0,
        }
    } else {
        0
    }
}

/// `a` is newer than `b`: the first level at which their numbers differ decides.
pub open spec fn newer(a: Seq<char>, b: Seq<char>) -> bool {
    if rank(a, 0) != rank(b, 0) {
        rank(a, 0) > rank(b, 0)
    } else if rank(a, 1) != rank(b, 1) {
        rank(a, 1) > rank(b, 1)
    } else if rank(a, 2) != rank(b, 2) {
        rank(a, 2) > rank(b, 2)
    } else {
        rank(a, 3) > rank(b, 3)
    }
}

/// Neither version is newer than the other.
pub open spec fn same_rank(a: Seq<char>, b: Seq<char>) -> bool {
    !newer(a, b) && !newer(b, a)
}

/// The versions of a list that rank with `version`, in the order of the list.
pub open spec fn ranked_with(list: Seq<Seq<char>>, version: Seq<char>) -> Seq<Seq<char>> {
    list.filter(|other: Seq<char>| same_rank(other, version))
}

/// No version stands before a newer one.
pub open spec fn descends(list: Seq<Seq<char>>) -> bool {
    forall|i: int, j: int|
        0 <= i < j < list.len() ==> !newer(#[trigger] list[j], #[trigger] list[i])
}

/// `sorted` holds what `list` holds, newest first; versions of the same rank
/// stand in the order that they had.
pub open spec fn is_newest_first(list: Seq<Seq<char>>, sorted: Seq<Seq<char>>) -> bool {
    &&& descends(sorted)
    &&& forall|version: Seq<char>| #[trigger]
        ranked_with(sorted, version) == ranked_with(list, version)
}

/// The list, newest first.
pub open spec fn newest_first_of(list: Seq<Seq<char>>) -> Seq<Seq<char>> {
    choose|sorted: Seq<Seq<char>>| is_newest_first(list, sorted)
}

/// The list without each text that repeats the one before it.
pub open spec fn without_repeats(list: Seq<Seq<char>>) -> Seq<Seq<char>>
    decreases list.len(),
{
    if list.len() < 2 {
        list
    } else if list.last() == list[list.len() - 2] {
        without_repeats(list.drop_last())
    } else {
        without_repeats(list.drop_last()).push(list.last())
    }
}

/// `candidate` is the version `request`, or one of the series `request`.
pub open spec fn answers(candidate: Seq<char>, request: Seq<char>) -> bool {
    candidate == request || request.push('.').is_prefix_of(candidate)
}

/// The candidates that a request leaves: all of them for `latest`.
pub open spec fn shortlist_of(candidates: Seq<Seq<char>>, request: Seq<char>) -> Seq<Seq<char>> {
    if request == "latest"@ {
        candidates
    } else {
        candidates.filter(|candidate: Seq<char>| answers(candidate, request))
    }
}

// -- lemmas ------------------------------------------------------------------

/// There is one order of a list, newest first.
pub proof fn lemma_newest_first_unique(
    list: Seq<Seq<char>>,
    a: Seq<Seq<char>>,
    b: Seq<Seq<char>>,
)
    requires
        is_newest_first(list, a),
        is_newest_first(list, b),
    ensures
        a == b,
    decreases a.len(),
{
    if a.len() == 0 {
        if b.len() > 0 {
            lemma_ranked_with_first(b);
            assert(ranked_with(a, b[0]) == ranked_with(b, b[0]));
            assert(ranked_with(a, b[0]) =~= Seq::empty());
        }
        assert(a =~= b);
    } else {
        lemma_ranked_with_first(a);
        assert(ranked_with(a, a[0]) == ranked_with(b, a[0]));
        lemma_ranked_with_members(b, a[0]);
        assert(b.len() > 0);
        lemma_ranked_with_first(b);
        assert(ranked_with(a, b[0]) == ranked_with(b, b[0]));
        lemma_ranked_with_members(a, b[0]);
        assert(same_rank(a[0], b[0]));
        assert(ranked_with(a, a[0]) =~= ranked_with(a, b[0])) by {
            let with_a = |other: Seq<char>| same_rank(other, a[0]);
            let with_b = |other: Seq<char>| same_rank(other, b[0]);
            assert(with_a =~= with_b);
        }
        assert(a[0] == b[0]);
        let rest = a.drop_first();
        let other = b.drop_first();
        assert forall|version: Seq<char>| #[trigger]
            ranked_with(other, version) == ranked_with(rest, version) by {
            lemma_ranked_with_drop(a, version);
            lemma_ranked_with_drop(b, version);
            assert(ranked_with(a, version) == ranked_with(list, version));
            assert(ranked_with(b, version) == ranked_with(list, version));
            if same_rank(a[0], version) {
                assert(ranked_with(a, version).drop_first() =~= ranked_with(rest, version));
                assert(ranked_with(b, version).drop_first() =~= ranked_with(other, version));
            }
        }
        lemma_newest_first_unique(rest, rest, other);
        assert(a =~= seq![a[0]] + rest);
        assert(b =~= seq![b[0]] + other);
    }
}

/// What ranks with a version stands in the list.
proof fn lemma_ranked_with_members(list: Seq<Seq<char>>, version: Seq<char>)
    ensures
        forall|i: int|
            0 <= i < ranked_with(list, version).len() ==> list.contains(
                #[trigger] ranked_with(list, version)[i],
            ) && same_rank(ranked_with(list, version)[i], version),
        ranked_with(list, version).len() > 0 ==> list.len() > 0,
{
    let pred = |other: Seq<char>| same_rank(other, version);
    assert forall|i: int| 0 <= i < ranked_with(list, version).len() implies list.contains(
        #[trigger] ranked_with(list, version)[i],
    ) && same_rank(ranked_with(list, version)[i], version) by {
        list.lemma_filter_pred(pred, i);
        assert(list.filter(pred).contains(ranked_with(list, version)[i]));
        list.lemma_filter_contains_rev(pred, ranked_with(list, version)[i]);
    }
}

/// The first of a list is the first of its rank.
proof fn lemma_ranked_with_first(list: Seq<Seq<char>>)
    requires
        list.len() > 0,
    ensures
        ranked_with(list, list[0]).len() > 0,
        ranked_with(list, list[0])[0] == list[0],
{
    lemma_ranked_with_drop(list, list[0]);
}

/// Dropping the first of a list drops it from its rank alone.
proof fn lemma_ranked_with_drop(list: Seq<Seq<char>>, version: Seq<char>)
    requires
        list.len() > 0,
    ensures
        ranked_with(list, version) == (if same_rank(list[0], version) {
            seq![list[0]] + ranked_with(list.drop_first(), version)
        } else {
            ranked_with(list.drop_first(), version)
        }),
{
    let pred = |other: Seq<char>| same_rank(other, version);
    let head = seq![list[0]];
    assert(list =~= head + list.drop_first());
    Seq::filter_distributes_over_add(head, list.drop_first(), pred);
    reveal(Seq::filter);
    assert(head.drop_last() =~= Seq::<Seq<char>>::empty());
    assert(head.drop_last().filter(pred) =~= Seq::<Seq<char>>::empty());
    if pred(list[0]) {
        assert(head.filter(pred) =~= head);
    } else {
        assert(head.filter(pred) =~= Seq::<Seq<char>>::empty());
        assert(list.filter(pred) =~= list.drop_first().filter(pred));
    }
}

// -- reading versions --------------------------------------------------------

/// True for versions made only of dotted numbers, which excludes the alpha, rc
/// and `-old` directories that release archives are full of.
pub fn is_plain_version(name: &str) -> (plain: bool)
    ensures
        plain == is_plain(name@),
{
    let chars = chars_of(name);
    let dot: [char; 1] = ['.'];
    assert(dot@ =~= seq!['.']);
    let pieces = split_on(&chars, &dot);
    let ghost all = parts(name@);
    assert(pieces@.len() == all.len());
    if pieces.len() < 2 || pieces.len() > 4 {
        return false;
    }
    let mut i: usize = 0;
    while i < pieces.len()
        invariant
            i <= pieces@.len(),
            crate::text::pieces(pieces@) == all,
            all == parts(name@),
            forall|k: int|
                0 <= k < i ==> (#[trigger] all[k]).len() > 0 && crate::number::all_digits(all[k]),
        decreases pieces@.len() - i,
    {
        let piece = pieces[i];
        assert(piece@ == all[i as int]);
        if piece.len() == 0 {
            return false;
        }
        let mut j: usize = 0;
        while j < piece.len()
            invariant
                j <= piece@.len(),
                i < all.len(),
                piece@ == all[i as int],
                all == parts(name@),
                forall|k: int| 0 <= k < j ==> crate::number::is_digit(#[trigger] piece@[k]),
            decreases piece@.len() - j,
        {
            if piece[j] < '0' || piece[j] > '9' {
                assert(!crate::number::is_digit(all[i as int][j as int]));
                return false;
            }
            j += 1;
        }
        i += 1;
    }
    true
}

/// Sort key for a dotted numeric version, padded so `1.10` sorts above `1.9`.
pub fn version_key(version: &str) -> (key: [u32; 4])
    ensures
        forall|level: int| 0 <= level < 4 ==> #[trigger] key@[level] == rank(version@, level),
{
    let chars = chars_of(version);
    let dot: [char; 1] = ['.'];
    assert(dot@ =~= seq!['.']);
    let pieces = split_on(&chars, &dot);
    let ghost all = parts(version@);
    assert(pieces@.len() == all.len());
    let mut key: [u32; 4] = [0u32, 0u32, 0u32, 0u32];
    let mut i: usize = 0;
    while i < 4 && i < pieces.len()
        invariant
            i <= 4,
            i <= pieces@.len(),
            key@.len() == 4,
            pieces@.len() == all.len(),
            crate::text::pieces(pieces@) == all,
            all == parts(version@),
            forall|level: int| 0 <= level < i ==> #[trigger] key@[level] == rank(version@, level),
            forall|level: int| i <= level < 4 ==> #[trigger] key@[level] == 0,
        decreases 4 - i,
    {
        let piece = pieces[i];
        assert(piece@ == all[i as int]);
        match parse_number(piece, u32::MAX as u64) {
            Some(number) => {
                key[i] = number as u32;
            },
            None => {},
        }
        i += 1;
    }
    key
}

/// Whether the version `a` is newer than the version `b`.
pub fn is_newer(a: &str, b: &str) -> (result: bool)
    ensures
        result == newer(a@, b@),
{
    let x = version_key(a);
    let y = version_key(b);
    assert(x@[0] == rank(a@, 0) && x@[1] == rank(a@, 1) && x@[2] == rank(a@, 2) && x@[3] == rank(
        a@,
        3,
    ));
    assert(y@[0] == rank(b@, 0) && y@[1] == rank(b@, 1) && y@[2] == rank(b@, 2) && y@[3] == rank(
        b@,
        3,
    ));
    if x[0] != y[0] {
        x[0] > y[0]
    } else if x[1] != y[1] {
        x[1] > y[1]
    } else if x[2] != y[2] {
        x[2] > y[2]
    } else {
        x[3] > y[3]
    }
}

// -- ordering versions -------------------------------------------------------

/// Putting a version before the first one that it is newer than keeps the order.
proof fn lemma_placed(list: Seq<Seq<char>>, at: int, version: Seq<char>)
    requires
        descends(list),
        0 <= at <= list.len(),
        forall|i: int| 0 <= i < at ==> !newer(version, #[trigger] list[i]),
        at < list.len() ==> newer(version, list[at]),
    ensures
        descends(list.insert(at, version)),
        forall|other: Seq<char>| #[trigger]
            ranked_with(list.insert(at, version), other) == ranked_with(list.push(version), other),
{
    let placed = list.insert(at, version);
    assert forall|i: int| at <= i < list.len() implies newer(version, #[trigger] list[i]) by {
        if i > at {
            assert(!newer(list[i], list[at]));
        }
    }
    assert forall|i: int, j: int| 0 <= i < j < placed.len() implies !newer(
        #[trigger] placed[j],
        #[trigger] placed[i],
    ) by {
        let old_i = if i < at {
            i
        } else {
            i - 1
        };
        let old_j = if j < at {
            j
        } else {
            j - 1
        };
        if i != at {
            assert(placed[i] == list[old_i]);
        }
        if j != at {
            assert(placed[j] == list[old_j]);
        }
    }
    assert forall|other: Seq<char>| #[trigger]
        ranked_with(placed, other) == ranked_with(list.push(version), other) by {
        let pred = |v: Seq<char>| same_rank(v, other);
        let front = list.take(at);
        let back = list.skip(at);
        let one = seq![version];
        assert(placed =~= front + one + back);
        assert(list.push(version) =~= front + back + one);
        Seq::filter_distributes_over_add(front + one, back, pred);
        Seq::filter_distributes_over_add(front, one, pred);
        Seq::filter_distributes_over_add(front + back, one, pred);
        Seq::filter_distributes_over_add(front, back, pred);
        reveal(Seq::filter);
        assert(one.drop_last() =~= Seq::<Seq<char>>::empty());
        if pred(version) {
            assert forall|i: int| 0 <= i < back.len() implies !pred(#[trigger] back[i]) by {
                assert(back[i] == list[at + i]);
            }
            back.lemma_all_neg_filter_empty(pred);
            assert(back.filter(pred) =~= Seq::<Seq<char>>::empty());
            assert(ranked_with(placed, other) =~= ranked_with(list.push(version), other));
        } else {
            one.lemma_all_neg_filter_empty(pred);
            assert(one.filter(pred) =~= Seq::<Seq<char>>::empty());
            assert(ranked_with(placed, other) =~= ranked_with(list.push(version), other));
        }
    }
}

/// The versions, newest first; versions of the same rank keep their order.
pub fn newest_first(versions: &Vec<String>) -> (sorted: Vec<String>)
    ensures
        is_newest_first(crate::text::texts(versions@), crate::text::texts(sorted@)),
        crate::text::texts(sorted@) == newest_first_of(crate::text::texts(versions@)),
{
    let ghost all = crate::text::texts(versions@);
    let mut sorted: Vec<String> = Vec::new();
    let mut i: usize = 0;
    assert(all.take(0) =~= crate::text::texts(sorted@));
    while i < versions.len()
        invariant
            i <= versions@.len(),
            all == crate::text::texts(versions@),
            is_newest_first(all.take(i as int), crate::text::texts(sorted@)),
        decreases versions@.len() - i,
    {
        let ghost before = crate::text::texts(sorted@);
        let ghost version = versions@[i as int]@;
        let mut at: usize = 0;
        while at < sorted.len() && !is_newer(versions[i].as_str(), sorted[at].as_str())
            invariant
                at <= sorted@.len(),
                i < versions@.len(),
                version == versions@[i as int]@,
                before == crate::text::texts(sorted@),
                forall|j: int| 0 <= j < at ==> !newer(version, #[trigger] before[j]),
            decreases sorted@.len() - at,
        {
            at += 1;
        }
        sorted.insert(at, versions[i].clone());
        proof {
            lemma_placed(before, at as int, version);
            assert(crate::text::texts(sorted@) =~= before.insert(at as int, version));
            assert(all.take(i + 1) =~= all.take(i as int).push(version));
            assert forall|other: Seq<char>| #[trigger]
                ranked_with(crate::text::texts(sorted@), other) == ranked_with(
                    all.take(i + 1),
                    other,
                ) by {
                let pred = |v: Seq<char>| same_rank(v, other);
                assert(ranked_with(before.insert(at as int, version), other) == ranked_with(
                    before.push(version),
                    other,
                ));
                assert(ranked_with(before, other) == ranked_with(all.take(i as int), other));
                before.lemma_filter_push(version, pred);
                all.take(i as int).lemma_filter_push(version, pred);
            }
        }
        i += 1;
    }
    proof {
        assert(all.take(i as int) =~= all);
        lemma_newest_first_unique(all, crate::text::texts(sorted@), newest_first_of(all));
    }
    sorted
}

/// The list without each text that repeats the one before it.
pub fn dedup(list: &Vec<String>) -> (out: Vec<String>)
    ensures
        crate::text::texts(out@) == without_repeats(crate::text::texts(list@)),
{
    let ghost all = crate::text::texts(list@);
    let mut out: Vec<String> = Vec::new();
    let mut i: usize = 0;
    assert(all.take(0) =~= crate::text::texts(out@));
    while i < list.len()
        invariant
            i <= list@.len(),
            all == crate::text::texts(list@),
            crate::text::texts(out@) == without_repeats(all.take(i as int)),
        decreases list@.len() - i,
    {
        let ghost before = crate::text::texts(out@);
        let ghost next = all.take(i + 1);
        assert(next.drop_last() =~= all.take(i as int));
        let repeats = i > 0 && same_text(list[i].as_str(), list[i - 1].as_str());
        if !repeats {
            out.push(list[i].clone());
            assert(crate::text::texts(out@) =~= before.push(next.last()));
            if i == 0 {
                assert(before =~= Seq::empty());
                assert(without_repeats(next) =~= before.push(next.last()));
            }
        }
        i += 1;
    }
    assert(all.take(i as int) =~= all);
    out
}

/// Narrows a descending list of versions to `latest`, a series prefix such as
/// `3.12` or `17`, or an exact version.
pub fn shortlist(candidates: Vec<String>, request: &str) -> (short: Vec<String>)
    ensures
        crate::text::texts(short@) == shortlist_of(crate::text::texts(candidates@), request@),
{
    if same_text(request, "latest") {
        return candidates;
    }
    let mut series = request.to_owned();
    series.push('.');
    let series_chars = chars_of(series.as_str());
    let ghost all = crate::text::texts(candidates@);
    let ghost pred = |candidate: Seq<char>| answers(candidate, request@);
    let mut short: Vec<String> = Vec::new();
    let mut i: usize = 0;
    reveal(Seq::filter);
    assert(all.take(0).filter(pred) =~= crate::text::texts(short@));
    while i < candidates.len()
        invariant
            i <= candidates@.len(),
            all == crate::text::texts(candidates@),
            pred == (|candidate: Seq<char>| answers(candidate, request@)),
            series_chars@ == request@.push('.'),
            crate::text::texts(short@) == all.take(i as int).filter(pred),
        decreases candidates@.len() - i,
    {
        let ghost before = crate::text::texts(short@);
        let candidate = candidates[i].as_str();
        assert(all.take(i + 1).drop_last() =~= all.take(i as int));
        let chars = chars_of(candidate);
        if same_text(candidate, request) || begins_with(&chars, &series_chars) {
            short.push(candidates[i].clone());
            assert(crate::text::texts(short@) =~= before.push(candidate@));
        }
        reveal(Seq::filter);
        i += 1;
    }
    assert(all.take(i as int) =~= all);
    short
}

/// A plain version begins with a digit.
pub proof fn lemma_plain_begins_with_digit(version: Seq<char>)
    requires
        is_plain(version),
    ensures
        version.len() > 0,
        crate::number::is_digit(version[0]),
{
    crate::text::lemma_first_from(version, seq!['.'], 0);
    let part = parts(version)[0];
    assert(part.len() > 0);
    assert(crate::number::is_digit(part[0]));
    assert(part[0] == version[0]);
}

// -- laws --------------------------------------------------------------------

/// A series is matched component by component: `3.1` selects `3.1.5` and not
/// `3.12.7`.
pub proof fn law_series_is_dot_delimited(candidate: Seq<char>, request: Seq<char>)
    ensures
        answers(candidate, request) <==> parts(request).is_prefix_of(parts(candidate)),
{
    let dot = seq!['.'];
    let series = request.push('.');
    if series.is_prefix_of(candidate) {
        let rest = candidate.skip(series.len() as int);
        assert(candidate =~= series + rest);
        crate::text::lemma_split_concat(request, '.', rest);
    }
    if parts(request).is_prefix_of(parts(candidate)) {
        let count = parts(request).len() as int;
        let tail = parts(candidate).skip(count);
        assert(parts(candidate) =~= parts(request) + tail);
        crate::text::lemma_join_split(candidate, '.');
        crate::text::lemma_join_split(request, '.');
        crate::text::lemma_split_pieces(request, '.');
        if tail.len() == 0 {
            assert(parts(candidate) =~= parts(request));
        } else {
            crate::text::lemma_join_concat(parts(request), tail, dot);
            assert(series.is_prefix_of(candidate)) by {
                assert(candidate =~= series + crate::text::join(tail, dot));
            }
        }
    }
}

/// The version that the numbers write.
pub open spec fn written(numbers: Seq<nat>) -> Seq<char> {
    crate::text::join(numbers.map_values(|number: nat| crate::number::decimal(number)), seq!['.'])
}

/// Versions are ranked by the numbers that they write, not by their characters:
/// `1.10` ranks above `1.9`.
pub proof fn law_ranks_are_numeric(numbers: Seq<nat>, level: int)
    requires
        numbers.len() > 0,
        forall|i: int| 0 <= i < numbers.len() ==> #[trigger] numbers[i] <= u32::MAX,
        0 <= level,
    ensures
        rank(written(numbers), level) == (if level < numbers.len() {
            numbers[level]
        } else {
            0
        }),
{
    let texts = numbers.map_values(|number: nat| crate::number::decimal(number));
    assert forall|i: int, j: int| 0 <= i < texts.len() && 0 <= j < texts[i].len() implies (
    #[trigger] texts[i][j]) != '.' by {
        crate::number::lemma_decimal_reads_back(numbers[i]);
        assert(crate::number::is_digit(crate::number::decimal(numbers[i])[j]));
    }
    crate::text::lemma_split_join(texts, '.');
    if level < numbers.len() {
        crate::number::law_decimal_round_trip(numbers[level], u32::MAX as nat);
    }
}

/// A filtered list keeps its order.
proof fn lemma_filter_descends(list: Seq<Seq<char>>, pred: spec_fn(Seq<char>) -> bool)
    requires
        descends(list),
    ensures
        descends(list.filter(pred)),
    decreases list.len(),
{
    reveal(Seq::filter);
    if list.len() > 0 {
        let front = list.drop_last();
        let kept = front.filter(pred);
        lemma_filter_descends(front, pred);
        if pred(list.last()) {
            let all = kept.push(list.last());
            assert forall|i: int, j: int| 0 <= i < j < all.len() implies !newer(
                #[trigger] all[j],
                #[trigger] all[i],
            ) by {
                if j == kept.len() {
                    assert(kept.contains(kept[i]));
                    front.lemma_filter_contains_rev(pred, kept[i]);
                    let k = choose|k: int| 0 <= k < front.len() && front[k] == kept[i];
                    assert(list[k] == kept[i]);
                    assert(!newer(list[list.len() - 1], list[k]));
                }
            }
        }
    }
}

/// Out of a list that is newest first, the first of the shortlist is the newest
/// of all that answer the request.
pub proof fn law_first_of_shortlist_is_newest(candidates: Seq<Seq<char>>, request: Seq<char>)
    requires
        descends(candidates),
    ensures
        descends(shortlist_of(candidates, request)),
        forall|i: int|
            0 <= i < candidates.len() && (request == "latest"@ || answers(
                #[trigger] candidates[i],
                request,
            )) ==> shortlist_of(candidates, request).len() > 0 && !newer(
                candidates[i],
                shortlist_of(candidates, request)[0],
            ),
{
    let short = shortlist_of(candidates, request);
    let pred = |candidate: Seq<char>| answers(candidate, request);
    if request != "latest"@ {
        lemma_filter_descends(candidates, pred);
    }
    assert forall|i: int|
        0 <= i < candidates.len() && (request == "latest"@ || answers(
            #[trigger] candidates[i],
            request,
        )) implies short.len() > 0 && !newer(candidates[i], short[0]) by {
        if request != "latest"@ {
            candidates.lemma_filter_contains(pred, i);
        }
        let k = choose|k: int| 0 <= k < short.len() && short[k] == candidates[i];
        assert(short[k] == candidates[i]);
        if k > 0 {
            assert(!newer(short[k], short[0]));
        }
    }
}

/// Leaving out repeats leaves a list in its order.
pub proof fn law_without_repeats_keeps_order(list: Seq<Seq<char>>)
    requires
        descends(list),
    ensures
        descends(without_repeats(list)),
        forall|version: Seq<char>| #[trigger]
            without_repeats(list).contains(version) <==> list.contains(version),
    decreases list.len(),
{
    let out = without_repeats(list);
    if list.len() >= 2 {
        let front = list.drop_last();
        let kept = without_repeats(front);
        law_without_repeats_keeps_order(front);
        assert(list =~= front.push(list.last()));
        assert forall|version: Seq<char>| #[trigger]
            out.contains(version) <==> list.contains(version) by {
            assert(kept.contains(version) <==> front.contains(version));
            if list.contains(version) {
                let k = choose|k: int| 0 <= k < list.len() && list[k] == version;
                if k < front.len() {
                    assert(front[k] == version);
                    let m = choose|m: int| 0 <= m < kept.len() && kept[m] == version;
                    assert(out[m] == version);
                } else if list.last() == list[list.len() - 2] {
                    assert(front[front.len() - 1] == version);
                } else {
                    assert(out[kept.len() as int] == version);
                }
            }
            if out.contains(version) {
                let k = choose|k: int| 0 <= k < out.len() && out[k] == version;
                if k < kept.len() {
                    assert(kept[k] == version);
                    let m = choose|m: int| 0 <= m < front.len() && front[m] == version;
                    assert(list[m] == version);
                } else {
                    assert(list[list.len() - 1] == version);
                }
            }
        }
        if list.last() != list[list.len() - 2] {
            assert forall|i: int, j: int| 0 <= i < j < out.len() implies !newer(
                #[trigger] out[j],
                #[trigger] out[i],
            ) by {
                if j == kept.len() {
                    assert(kept.contains(kept[i]));
                    let k = choose|k: int| 0 <= k < front.len() && front[k] == kept[i];
                    assert(list[k] == kept[i]);
                    assert(!newer(list[list.len() - 1], list[k]));
                } else {
                    assert(out[i] == kept[i] && out[j] == kept[j]);
                }
            }
        }
    }
}

/// The first place, from `from` on, before a version that `version` is newer than.
spec fn place_from(list: Seq<Seq<char>>, version: Seq<char>, from: int) -> int
    decreases list.len() - from,
{
    if from >= list.len() || newer(version, list[from]) {
        from
    } else {
        place_from(list, version, from + 1)
    }
}

proof fn lemma_place_from(list: Seq<Seq<char>>, version: Seq<char>, from: int)
    requires
        0 <= from <= list.len(),
    ensures
        from <= place_from(list, version, from) <= list.len(),
        forall|i: int|
            from <= i < place_from(list, version, from) ==> !newer(version, #[trigger] list[i]),
        place_from(list, version, from) < list.len() ==> newer(
            version,
            list[place_from(list, version, from)],
        ),
    decreases list.len() - from,
{
    if from < list.len() && !newer(version, list[from]) {
        lemma_place_from(list, version, from + 1);
    }
}

/// Every list has an order, newest first.
pub proof fn lemma_newest_first_exists(list: Seq<Seq<char>>)
    ensures
        is_newest_first(list, newest_first_of(list)),
    decreases list.len(),
{
    if list.len() == 0 {
        assert(is_newest_first(list, list));
    } else {
        let front = list.drop_last();
        let version = list.last();
        lemma_newest_first_exists(front);
        let sorted = newest_first_of(front);
        let at = place_from(sorted, version, 0);
        lemma_place_from(sorted, version, 0);
        lemma_placed(sorted, at, version);
        let placed = sorted.insert(at, version);
        assert(list =~= front.push(version));
        assert forall|other: Seq<char>| #[trigger]
            ranked_with(placed, other) == ranked_with(list, other) by {
            let pred = |v: Seq<char>| same_rank(v, other);
            assert(ranked_with(placed, other) == ranked_with(sorted.push(version), other));
            assert(ranked_with(sorted, other) == ranked_with(front, other));
            sorted.lemma_filter_push(version, pred);
            front.lemma_filter_push(version, pred);
        }
        assert(is_newest_first(list, placed));
    }
}

/// Ordering a list neither adds a version nor loses one.
pub proof fn lemma_newest_first_members(
    list: Seq<Seq<char>>,
    sorted: Seq<Seq<char>>,
    version: Seq<char>,
)
    requires
        is_newest_first(list, sorted),
    ensures
        sorted.contains(version) <==> list.contains(version),
{
    let pred = |other: Seq<char>| same_rank(other, version);
    assert(ranked_with(sorted, version) == ranked_with(list, version));
    if sorted.contains(version) {
        let k = choose|k: int| 0 <= k < sorted.len() && sorted[k] == version;
        sorted.lemma_filter_contains(pred, k);
        list.lemma_filter_contains_rev(pred, version);
    }
    if list.contains(version) {
        let k = choose|k: int| 0 <= k < list.len() && list[k] == version;
        list.lemma_filter_contains(pred, k);
        sorted.lemma_filter_contains_rev(pred, version);
    }
}

/// Plain versions are two to four numbers, parted by dots, and nothing else is one.
pub proof fn law_plain_versions_are_dotted_numbers(list: Seq<Seq<char>>)
    requires
        list.len() > 0,
        forall|i: int, j: int|
            0 <= i < list.len() && 0 <= j < list[i].len() ==> #[trigger] list[i][j] != '.',
    ensures
        is_plain(crate::text::join(list, seq!['.'])) <==> 2 <= list.len() <= 4 && (forall|i: int|
            0 <= i < list.len() ==> (#[trigger] list[i]).len() > 0) && (forall|i: int, j: int|
            0 <= i < list.len() && 0 <= j < list[i].len() ==> '0' <= #[trigger] list[i][j] <= '9'),
{
    crate::text::lemma_split_join(list, '.');
    let version = crate::text::join(list, seq!['.']);
    assert(parts(version) == list);
    if is_plain(version) {
        assert forall|i: int| 0 <= i < list.len() implies (#[trigger] list[i]).len() > 0 by {
            assert(parts(version)[i].len() > 0);
        }
        assert forall|i: int, j: int| 0 <= i < list.len() && 0 <= j < list[i].len() implies '0'
            <= #[trigger] list[i][j] <= '9' by {
            assert(crate::number::all_digits(parts(version)[i]));
            assert(crate::number::is_digit(list[i][j]));
        }
    }
    if 2 <= list.len() <= 4 && (forall|i: int|
        0 <= i < list.len() ==> (#[trigger] list[i]).len() > 0) && (forall|i: int, j: int|
        0 <= i < list.len() && 0 <= j < list[i].len() ==> '0' <= #[trigger] list[i][j] <= '9') {
        assert forall|i: int| 0 <= i < parts(version).len() implies (#[trigger] parts(
            version,
        )[i]).len() > 0 && crate::number::all_digits(parts(version)[i]) by {
            assert(list[i].len() > 0);
            assert forall|j: int| 0 <= j < list[i].len() implies crate::number::is_digit(
                #[trigger] list[i][j],
            ) by {}
        }
    }
}

/// Of two versions the newer is the one with the larger number in the first place in
/// which they differ, of four; a missing number counts as zero.
pub proof fn law_newer_is_numeric(a: Seq<nat>, b: Seq<nat>)
    requires
        a.len() > 0,
        b.len() > 0,
        forall|i: int| 0 <= i < a.len() ==> #[trigger] a[i] <= u32::MAX,
        forall|i: int| 0 <= i < b.len() ==> #[trigger] b[i] <= u32::MAX,
    ensures
        ({
            let at = |numbers: Seq<nat>, level: int|
                if level < numbers.len() {
                    numbers[level]
                } else {
                    0nat
                };
            newer(written(a), written(b)) <==> {
                ||| at(a, 0) > at(b, 0)
                ||| at(a, 0) == at(b, 0) && at(a, 1) > at(b, 1)
                ||| at(a, 0) == at(b, 0) && at(a, 1) == at(b, 1) && at(a, 2) > at(b, 2)
                ||| at(a, 0) == at(b, 0) && at(a, 1) == at(b, 1) && at(a, 2) == at(b, 2) && at(a, 3)
                    > at(b, 3)
            }
        }),
{
    law_ranks_are_numeric(a, 0);
    law_ranks_are_numeric(a, 1);
    law_ranks_are_numeric(a, 2);
    law_ranks_are_numeric(a, 3);
    law_ranks_are_numeric(b, 0);
    law_ranks_are_numeric(b, 1);
    law_ranks_are_numeric(b, 2);
    law_ranks_are_numeric(b, 3);
}

/// A part of a version that is no number counts as zero.
pub proof fn law_other_parts_count_as_zero(list: Seq<Seq<char>>, level: int)
    requires
        forall|i: int, j: int|
            0 <= i < list.len() && 0 <= j < list[i].len() ==> #[trigger] list[i][j] != '.',
        0 <= level < list.len(),
        crate::number::parsed_number(list[level], u32::MAX as nat) is None,
    ensures
        rank(crate::text::join(list, seq!['.']), level) == 0,
{
    crate::text::lemma_split_join(list, '.');
}

proof fn lemma_count_in_rank(list: Seq<Seq<char>>, version: Seq<char>)
    ensures
        list.to_multiset().count(version) == ranked_with(list, version).to_multiset().count(
            version,
        ),
    decreases list.len(),
{
    broadcast use vstd::seq_lib::group_to_multiset_ensures;

    reveal(Seq::filter);
    let pred = |other: Seq<char>| same_rank(other, version);
    if list.len() == 0 {
        assert(ranked_with(list, version) =~= list);
    } else {
        let front = list.drop_last();
        lemma_count_in_rank(front, version);
        front.lemma_filter_push(list.last(), pred);
        assert(list =~= front.push(list.last()));
        assert(list.to_multiset() =~= front.to_multiset().insert(list.last()));
        if same_rank(list.last(), version) {
            let kept = ranked_with(front, version);
            assert(ranked_with(list, version) == kept.push(list.last()));
            assert(kept.push(list.last()).to_multiset() =~= kept.to_multiset().insert(list.last()));
        } else {
            assert(list.last() != version);
        }
    }
}

/// Ordering versions newest first rearranges them: every one is there as often as
/// before, none comes before a newer one, and those of one rank keep their order.
pub proof fn law_newest_first_rearranges(list: Seq<Seq<char>>, version: Seq<char>)
    ensures
        newest_first_of(list).to_multiset() == list.to_multiset(),
        forall|i: int, j: int|
            0 <= i < j < newest_first_of(list).len() ==> !newer(
                #[trigger] newest_first_of(list)[j],
                #[trigger] newest_first_of(list)[i],
            ),
        ({
            let same = |other: Seq<char>| !newer(other, version) && !newer(version, other);
            newest_first_of(list).filter(same) == list.filter(same)
        }),
{
    let sorted = newest_first_of(list);
    lemma_newest_first_exists(list);
    assert forall|other: Seq<char>| #[trigger]
        sorted.to_multiset().count(other) == list.to_multiset().count(other) by {
        lemma_count_in_rank(list, other);
        lemma_count_in_rank(sorted, other);
        assert(ranked_with(sorted, other) == ranked_with(list, other));
    }
    assert(sorted.to_multiset() =~= list.to_multiset());
    assert(ranked_with(sorted, version) == ranked_with(list, version));
    let pred = |other: Seq<char>| same_rank(other, version);
    let same = |other: Seq<char>| !newer(other, version) && !newer(version, other);
    assert(pred =~= same);
}

/// Leaving out repeats leaves one of equal neighbours and nothing else out.
pub proof fn law_only_repeats_are_left_out(list: Seq<Seq<char>>, version: Seq<char>)
    ensures
        without_repeats(Seq::empty()).len() == 0,
        without_repeats(seq![version]) == seq![version],
        list.len() > 0 ==> without_repeats(list.push(version)) == (if list.last() == version {
            without_repeats(list)
        } else {
            without_repeats(list).push(version)
        }),
{
    if list.len() > 0 {
        let longer = list.push(version);
        assert(longer.drop_last() =~= list);
        assert(longer[longer.len() - 2] == list.last());
    }
}

/// The candidates for a request are those that it names, or that are of the series
/// that it names, all of them and in their order; all candidates are for `latest`.
pub proof fn law_shortlist_keeps_what_answers(
    candidates: Seq<Seq<char>>,
    candidate: Seq<char>,
    request: Seq<char>,
)
    ensures
        shortlist_of(candidates, "latest"@) == candidates,
        shortlist_of(Seq::empty(), request).len() == 0,
        request != "latest"@ ==> shortlist_of(candidates.push(candidate), request) == (
        if candidate == request || request.push('.').is_prefix_of(candidate) {
            shortlist_of(candidates, request).push(candidate)
        } else {
            shortlist_of(candidates, request)
        }),
{
    reveal(Seq::filter);
    candidates.lemma_filter_push(candidate, |candidate: Seq<char>| answers(candidate, request));
}

/// After repeats are left out, no two neighbours are equal.
pub proof fn law_no_neighbours_repeat(list: Seq<Seq<char>>)
    ensures
        forall|i: int|
            0 <= i < without_repeats(list).len() - 1 ==> without_repeats(list)[i]
                != #[trigger] without_repeats(list)[i + 1],
        list.len() > 0 ==> without_repeats(list).len() > 0 && without_repeats(list).last()
            == list.last(),
    decreases list.len(),
{
    if list.len() >= 2 {
        let front = list.drop_last();
        law_no_neighbours_repeat(front);
        let kept = without_repeats(front);
        let out = without_repeats(list);
        assert(front.last() == list[list.len() - 2]);
        if list.last() != list[list.len() - 2] {
            assert forall|i: int| 0 <= i < out.len() - 1 implies out[i] != #[trigger] out[i
                + 1] by {
                if i < kept.len() - 1 {
                    assert(kept[i] != kept[i + 1]);
                }
            }
        }
    }
}

} // verus!
