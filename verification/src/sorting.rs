//! Stable ordering of rooms from left to right.

use crate::geometry::Rect;
use vstd::prelude::*;

verus! {

/// The key rooms are ordered by: the x-coordinate of the center.
pub open spec fn center_x(room: Rect) -> int {
    room.spec_center().x as int
}

/// `sorted` with `room` placed behind every room whose center is not
/// further right than its own.
pub open spec fn inserted_by_center_x(sorted: Seq<Rect>, room: Rect) -> Seq<Rect>
    decreases sorted.len(),
{
    if sorted.len() == 0 {
        seq![room]
    } else if center_x(sorted.last()) <= center_x(room) {
        sorted.push(room)
    } else {
        inserted_by_center_x(sorted.drop_last(), room).push(sorted.last())
    }
}

/// `rooms` in ascending order of `center_x`, rooms with equal keys in the
/// order they have in `rooms`.
pub open spec fn sorted_by_center_x(rooms: Seq<Rect>) -> Seq<Rect>
    decreases rooms.len(),
{
    if rooms.len() == 0 {
        Seq::empty()
    } else {
        inserted_by_center_x(sorted_by_center_x(rooms.drop_last()), rooms.last())
    }
}

/// Whether the keys of `rooms` never decrease.
pub open spec fn is_ordered(rooms: Seq<Rect>) -> bool {
    forall|i: int, j: int| 0 <= i < j < rooms.len() ==> center_x(rooms[i]) <= center_x(rooms[j])
}

/// The test for a room's key being `key`.
pub open spec fn has_center_x(key: int) -> spec_fn(Rect) -> bool {
    |room: Rect| center_x(room) == key
}

/// The rooms of `rooms` whose key is `key`, in their order.
pub open spec fn with_center_x(rooms: Seq<Rect>, key: int) -> Seq<Rect> {
    rooms.filter(has_center_x(key))
}

/// Inserting a room is placing it at the position that has only larger
/// keys behind it and a key that is not larger just before it.
pub proof fn lemma_inserted_at(sorted: Seq<Rect>, room: Rect, at: int)
    requires
        0 <= at <= sorted.len(),
        forall|j: int| at <= j < sorted.len() ==> center_x(sorted[j]) > center_x(room),
        at > 0 ==> center_x(sorted[at - 1]) <= center_x(room),
    ensures
        inserted_by_center_x(sorted, room) == sorted.insert(at, room),
    decreases sorted.len(),
{
    if sorted.len() == 0 {
        assert(seq![room] =~= sorted.insert(at, room));
    } else if at == sorted.len() {
        assert(sorted.push(room) =~= sorted.insert(at, room));
    } else {
        lemma_inserted_at(sorted.drop_last(), room, at);
        assert(sorted.drop_last().insert(at, room).push(sorted.last()) =~= sorted.insert(
            at,
            room,
        ));
    }
}

/// Every insertion is an insertion at some position that keeps an ordered
/// sequence ordered.
pub proof fn lemma_insertion_point(sorted: Seq<Rect>, room: Rect) -> (at: int)
    ensures
        0 <= at <= sorted.len(),
        forall|j: int| at <= j < sorted.len() ==> center_x(sorted[j]) > center_x(room),
        at > 0 ==> center_x(sorted[at - 1]) <= center_x(room),
        inserted_by_center_x(sorted, room) == sorted.insert(at, room),
    decreases sorted.len(),
{
    let at = if sorted.len() == 0 {
        0
    } else if center_x(sorted.last()) <= center_x(room) {
        sorted.len() as int
    } else {
        lemma_insertion_point(sorted.drop_last(), room)
    };
    assert forall|j: int| at <= j < sorted.len() implies center_x(sorted[j]) > center_x(room) by {
        if j < sorted.len() - 1 {
            assert(sorted[j] == sorted.drop_last()[j]);
        }
    }
    if 0 < at < sorted.len() {
        assert(sorted[at - 1] == sorted.drop_last()[at - 1]);
    }
    lemma_inserted_at(sorted, room, at);
    at
}

/// Sorting keeps the number of rooms.
pub proof fn lemma_sorted_len(rooms: Seq<Rect>)
    ensures
        sorted_by_center_x(rooms).len() == rooms.len(),
    decreases rooms.len(),
{
    if rooms.len() > 0 {
        lemma_sorted_len(rooms.drop_last());
        lemma_insertion_point(sorted_by_center_x(rooms.drop_last()), rooms.last());
    }
}

/// The sorted rooms are in ascending order of `center_x`.
pub proof fn lemma_sorted_is_ordered(rooms: Seq<Rect>)
    ensures
        is_ordered(sorted_by_center_x(rooms)),
    decreases rooms.len(),
{
    if rooms.len() > 0 {
        let before = sorted_by_center_x(rooms.drop_last());
        lemma_sorted_is_ordered(rooms.drop_last());
        let at = lemma_insertion_point(before, rooms.last());
        let after = before.insert(at, rooms.last());
        assert forall|i: int, j: int| 0 <= i < j < after.len() implies center_x(after[i])
            <= center_x(after[j]) by {
            if j < at {
                assert(after[i] == before[i] && after[j] == before[j]);
            } else if j == at {
                assert(after[i] == before[i]);
                assert(center_x(before[i]) <= center_x(before[at - 1]));
            } else if i < at {
                assert(after[i] == before[i] && after[j] == before[j - 1]);
            } else if i == at {
                assert(after[j] == before[j - 1]);
            } else {
                assert(after[i] == before[i - 1] && after[j] == before[j - 1]);
            }
        }
    }
}

/// The sorted rooms are the given rooms, each as often as it was given.
pub proof fn lemma_sorted_is_permutation(rooms: Seq<Rect>)
    ensures
        sorted_by_center_x(rooms).to_multiset() == rooms.to_multiset(),
    decreases rooms.len(),
{
    if rooms.len() == 0 {
        assert(sorted_by_center_x(rooms) =~= rooms);
    } else {
        let before = sorted_by_center_x(rooms.drop_last());
        lemma_sorted_is_permutation(rooms.drop_last());
        let at = lemma_insertion_point(before, rooms.last());
        vstd::seq_lib::to_multiset_insert(before, at, rooms.last());
        vstd::seq_lib::to_multiset_build(rooms.drop_last(), rooms.last());
        assert(rooms.drop_last().push(rooms.last()) =~= rooms);
    }
}

/// Inserting a room leaves the rooms of every other key as they were, and
/// puts the room last among those of its own key.
pub proof fn lemma_inserted_keeps_keys(sorted: Seq<Rect>, room: Rect, key: int)
    ensures
        with_center_x(inserted_by_center_x(sorted, room), key) == with_center_x(
            sorted.push(room),
            key,
        ),
    decreases sorted.len(),
{
    let has_key = has_center_x(key);
    if sorted.len() == 0 {
        assert(seq![room] =~= sorted.push(room));
    } else if center_x(sorted.last()) > center_x(room) {
        let front = sorted.drop_last();
        let last = sorted.last();
        lemma_inserted_keeps_keys(front, room, key);
        inserted_by_center_x(front, room).lemma_filter_push(last, has_key);
        front.lemma_filter_push(room, has_key);
        front.lemma_filter_push(last, has_key);
        sorted.lemma_filter_push(room, has_key);
        assert(front.push(last) =~= sorted);
    }
}

/// Sorting is stable: the rooms of one key keep the order they were given in.
pub proof fn lemma_sorted_is_stable(rooms: Seq<Rect>, key: int)
    ensures
        with_center_x(sorted_by_center_x(rooms), key) == with_center_x(rooms, key),
    decreases rooms.len(),
{
    let has_key = has_center_x(key);
    if rooms.len() > 0 {
        let front = rooms.drop_last();
        let last = rooms.last();
        lemma_sorted_is_stable(front, key);
        lemma_inserted_keeps_keys(sorted_by_center_x(front), last, key);
        sorted_by_center_x(front).lemma_filter_push(last, has_key);
        front.lemma_filter_push(last, has_key);
        assert(front.push(last) =~= rooms);
    }
}

/// A room that is kept when rooms of `key` are picked out is a room of the
/// sequence, and its key is `key`.
proof fn lemma_picked_room(rooms: Seq<Rect>, key: int, i: int)
    requires
        0 <= i < with_center_x(rooms, key).len(),
    ensures
        center_x(with_center_x(rooms, key)[i]) == key,
        exists|j: int| 0 <= j < rooms.len() && rooms[j] == with_center_x(rooms, key)[i],
{
    let picked = with_center_x(rooms, key)[i];
    rooms.lemma_filter_pred(has_center_x(key), i);
    assert(with_center_x(rooms, key).contains(picked));
    rooms.lemma_filter_contains_rev(has_center_x(key), picked);
}

/// Picking the rooms of `key` out of a sequence that ends in a room of
/// another key is picking them out of the rooms before it; if it ends in a
/// room of `key`, that room comes last.
proof fn lemma_picked_last(rooms: Seq<Rect>, key: int)
    requires
        rooms.len() > 0,
    ensures
        with_center_x(rooms, key) == (if center_x(rooms.last()) == key {
            with_center_x(rooms.drop_last(), key).push(rooms.last())
        } else {
            with_center_x(rooms.drop_last(), key)
        }),
{
    rooms.drop_last().lemma_filter_push(rooms.last(), has_center_x(key));
    assert(rooms.drop_last().push(rooms.last()) =~= rooms);
}

/// The stable order is the only one: two ordered sequences that hold the
/// same rooms in the same order for every key are the same sequence.
pub proof fn lemma_stable_order_is_unique(a: Seq<Rect>, b: Seq<Rect>)
    requires
        is_ordered(a),
        is_ordered(b),
        forall|key: int| with_center_x(a, key) == with_center_x(b, key),
    ensures
        a == b,
    decreases a.len() + b.len(),
{
    if a.len() == 0 && b.len() == 0 {
        assert(a =~= b);
    } else if a.len() == 0 || b.len() == 0 {
        let (full, bare) = if a.len() == 0 {
            (b, a)
        } else {
            (a, b)
        };
        let key = center_x(full.last());
        lemma_picked_last(full, key);
        assert(with_center_x(full, key).len() > 0);
        bare.lemma_filter_len(has_center_x(key));
        assert(with_center_x(full, key) == with_center_x(bare, key));
    } else {
        let key_a = center_x(a.last());
        let key_b = center_x(b.last());
        lemma_picked_last(a, key_a);
        lemma_picked_last(b, key_b);
        assert(key_a <= key_b) by {
            let picked = with_center_x(b, key_a);
            assert(picked == with_center_x(a, key_a));
            lemma_picked_room(b, key_a, 0);
            let j = choose|j: int| 0 <= j < b.len() && b[j] == picked[0];
            assert(center_x(b[j]) <= center_x(b[b.len() - 1]));
        }
        assert(key_b <= key_a) by {
            let picked = with_center_x(a, key_b);
            assert(picked == with_center_x(b, key_b));
            lemma_picked_room(a, key_b, 0);
            let j = choose|j: int| 0 <= j < a.len() && a[j] == picked[0];
            assert(center_x(a[j]) <= center_x(a[a.len() - 1]));
        }
        let front_a = a.drop_last();
        let front_b = b.drop_last();
        assert(a.last() == b.last() && with_center_x(front_a, key_a) == with_center_x(
            front_b,
            key_a,
        )) by {
            let picked_a = with_center_x(front_a, key_a).push(a.last());
            let picked_b = with_center_x(front_b, key_a).push(b.last());
            assert(picked_a == picked_b);
            assert(picked_a.last() == picked_b.last());
            assert(picked_a.drop_last() =~= with_center_x(front_a, key_a));
            assert(picked_b.drop_last() =~= with_center_x(front_b, key_a));
        }
        assert forall|key: int| with_center_x(front_a, key) == with_center_x(front_b, key) by {
            lemma_picked_last(a, key);
            lemma_picked_last(b, key);
        }
        assert(is_ordered(front_a)) by {
            assert forall|i: int, j: int| 0 <= i < j < front_a.len() implies center_x(front_a[i])
                <= center_x(front_a[j]) by {
                assert(front_a[i] == a[i] && front_a[j] == a[j]);
            }
        }
        assert(is_ordered(front_b)) by {
            assert forall|i: int, j: int| 0 <= i < j < front_b.len() implies center_x(front_b[i])
                <= center_x(front_b[j]) by {
                assert(front_b[i] == b[i] && front_b[j] == b[j]);
            }
        }
        lemma_stable_order_is_unique(front_a, front_b);
        assert(a =~= front_a.push(a.last()));
        assert(b =~= front_b.push(b.last()));
    }
}

/// A copy of `rooms` in ascending order of the x-coordinate of the
/// centers; rooms whose centers share that coordinate keep their order.
pub fn sort_by_center_x(rooms: &Vec<Rect>) -> (sorted: Vec<Rect>)
    ensures
        sorted@ == sorted_by_center_x(rooms@),
        sorted@.len() == rooms@.len(),
        is_ordered(sorted@),
        sorted@.to_multiset() == rooms@.to_multiset(),
        forall|key: int| with_center_x(sorted@, key) == with_center_x(rooms@, key),
{
    let mut sorted: Vec<Rect> = Vec::new();
    let mut i: usize = 0;
    while i < rooms.len()
        invariant
            i <= rooms.len(),
            sorted@ == sorted_by_center_x(rooms@.take(i as int)),
            sorted@.len() == i,
        decreases rooms.len() - i,
    {
        let room: Rect = rooms[i];
        let key: i32 = room.center().x;
        let mut at: usize = sorted.len();
        while at > 0 && sorted[at - 1].center().x > key
            invariant
                at <= sorted.len(),
                key == center_x(room),
                forall|j: int| at <= j < sorted@.len() ==> center_x(sorted@[j]) > center_x(room),
            decreases at,
        {
            at -= 1;
        }
        proof {
            lemma_inserted_at(sorted@, room, at as int);
            assert(rooms@.take(i + 1).drop_last() =~= rooms@.take(i as int));
        }
        sorted.insert(at, room);
        i += 1;
    }
    proof {
        assert(rooms@.take(rooms@.len() as int) =~= rooms@);
        lemma_sorted_is_ordered(rooms@);
        lemma_sorted_is_permutation(rooms@);
        assert forall|key: int| with_center_x(sorted@, key) == with_center_x(rooms@, key) by {
            lemma_sorted_is_stable(rooms@, key);
        }
    }
    sorted
}

} // verus!
