//! Parts of texts and lists: where they stand, and what is left of a list.

use vstd::multiset::Multiset;
use vstd::prelude::*;

verus! {

/// Whether a piece stands at a place of a text.
pub open spec fn stands_at(text: Seq<char>, at: int, piece: Seq<char>) -> bool {
    &&& 0 <= at
    &&& at + piece.len() <= text.len()
    &&& text.subrange(at, at + piece.len()) == piece
}

/// Whether a text ends with a piece.
pub open spec fn closes_with(text: Seq<char>, piece: Seq<char>) -> bool {
    stands_at(text, text.len() - piece.len(), piece)
}

/// A piece stands behind what comes before it.
pub proof fn piece_stands(front: Seq<char>, piece: Seq<char>, back: Seq<char>)
    ensures
        stands_at(front + piece + back, front.len() as int, piece),
{
    let text = front + piece + back;
    let at = front.len() as int;
    assert(text.subrange(at, at + piece.len()) =~= piece);
}

/// Texts that differ in one piece alone differ.
pub proof fn other_piece(front: Seq<char>, a: Seq<char>, b: Seq<char>, back: Seq<char>)
    requires
        a != b,
    ensures
        front + a + back != front + b + back,
{
    if front + a + back == front + b + back {
        assert((front + a + back).len() == front.len() + a.len() + back.len());
        assert((front + b + back).len() == front.len() + b.len() + back.len());
        assert(a =~= (front + a + back).subrange(
            front.len() as int,
            (front.len() + a.len()) as int,
        ));
        assert(b =~= (front + b + back).subrange(
            front.len() as int,
            (front.len() + b.len()) as int,
        ));
    }
}

/// Whether the elements of a list stand at some places of another, in their order.
pub open spec fn stand_at<T>(part: Seq<T>, whole: Seq<T>, places: Seq<int>) -> bool {
    &&& places.len() == part.len()
    &&& forall|i: int|
        0 <= i < part.len() ==> 0 <= #[trigger] places[i] < whole.len() && part[i]
            == whole[places[i]]
    &&& forall|i: int, j: int| 0 <= i < j < part.len() ==> places[i] < places[j]
}

/// Whether a list is part of another, in the same order.
pub open spec fn is_sublist<T>(part: Seq<T>, whole: Seq<T>) -> bool {
    exists|places: Seq<int>| #[trigger] stand_at(part, whole, places)
}

/// Whether a list holds exactly what another holds and a test keeps, as often and in the same
/// order.
pub open spec fn keeps_only<T>(part: Seq<T>, whole: Seq<T>, test: spec_fn(T) -> bool) -> bool {
    &&& is_sublist(part, whole)
    &&& forall|x: T| #[trigger]
        part.to_multiset().count(x) == if test(x) {
            whole.to_multiset().count(x)
        } else {
            0
        }
    &&& forall|x: T| #[trigger] part.contains(x) <==> whole.contains(x) && test(x)
}

/// What a test lets through is that part of a list.
pub proof fn filtered_is_kept<T>(list: Seq<T>, test: spec_fn(T) -> bool)
    ensures
        keeps_only(list.filter(test), list, test),
    decreases list.len(),
{
    broadcast use vstd::seq_lib::group_to_multiset_ensures;

    reveal(Seq::filter);
    let part = list.filter(test);
    if list.len() == 0 {
        assert(stand_at(part, list, Seq::empty()));
        assert(part =~= list);
        assert(list.to_multiset() =~= Multiset::empty());
    } else {
        let rest = list.drop_last();
        let last = list.last();
        filtered_is_kept(rest, test);
        let before = rest.filter(test);
        let places = choose|places: Seq<int>| #[trigger] stand_at(before, rest, places);
        assert(list =~= rest.push(last));
        assert(list.to_multiset() =~= rest.to_multiset().insert(last));
        if test(last) {
            let more = places.push(list.len() - 1);
            assert(part == before.push(last));
            assert forall|i: int| 0 <= i < part.len() implies 0 <= #[trigger] more[i] < list.len()
                && part[i] == list[more[i]] by {
                if i < before.len() {
                    assert(more[i] == places[i]);
                }
            }
            assert(stand_at(part, list, more));
            assert(part.to_multiset() =~= before.to_multiset().insert(last));
        } else {
            assert(part == before);
            assert forall|i: int| 0 <= i < part.len() implies 0 <= #[trigger] places[i] < list.len()
                && part[i] == list[places[i]] by {}
            assert(stand_at(part, list, places));
        }
        assert forall|x: T| #[trigger] part.to_multiset().count(x) == if test(x) {
            list.to_multiset().count(x)
        } else {
            0
        } by {
            assert(before.to_multiset().count(x) == if test(x) {
                rest.to_multiset().count(x)
            } else {
                0
            });
        }
    }
    assert forall|x: T| #[trigger] part.contains(x) <==> list.contains(x) && test(x) by {
        assert(part.contains(x) <==> part.to_multiset().count(x) > 0);
        assert(list.contains(x) <==> list.to_multiset().count(x) > 0);
        assert(part.to_multiset().count(x) == if test(x) {
            list.to_multiset().count(x)
        } else {
            0
        });
    }
}

/// Tests that agree keep the same.
pub proof fn kept_alike<T>(
    part: Seq<T>,
    whole: Seq<T>,
    test: spec_fn(T) -> bool,
    other: spec_fn(T) -> bool,
)
    requires
        keeps_only(part, whole, test),
        forall|x: T| test(x) == #[trigger] other(x),
    ensures
        keeps_only(part, whole, other),
{
    assert forall|x: T| #[trigger] part.to_multiset().count(x) == if other(x) {
        whole.to_multiset().count(x)
    } else {
        0
    } by {
        assert(test(x) == other(x));
    }
    assert forall|x: T| #[trigger] part.contains(x) <==> whole.contains(x) && other(x) by {
        assert(test(x) == other(x));
    }
}

// ---- Layouts ----

/// The length of the first `n` pieces.
pub open spec fn length_of(pieces: Seq<Seq<char>>, n: int) -> int
    decreases n,
{
    if n <= 0 {
        0
    } else {
        length_of(pieces, n - 1) + pieces[n - 1].len()
    }
}

/// Whether a text shows pieces one behind the other: each stands where those before it end, and
/// there is nothing else.
#[verifier::opaque]
pub open spec fn is_laid_out(text: Seq<char>, pieces: Seq<Seq<char>>) -> bool {
    &&& text.len() == length_of(pieces, pieces.len() as int)
    &&& forall|i: int|
        0 <= i < pieces.len() ==> stands_at(text, length_of(pieces, i), #[trigger] pieces[i])
}

proof fn same_lengths(a: Seq<Seq<char>>, b: Seq<Seq<char>>, n: int)
    requires
        0 <= n <= a.len(),
        n <= b.len(),
        forall|i: int| 0 <= i < n ==> a[i] == b[i],
    ensures
        length_of(a, n) == length_of(b, n),
    decreases n,
{
    if n > 0 {
        same_lengths(a, b, n - 1);
    }
}

/// A text shows itself.
pub proof fn one_piece(text: Seq<char>)
    ensures
        is_laid_out(text, seq![text]),
{
    reveal(is_laid_out);
    reveal_with_fuel(length_of, 3);
    assert(text.subrange(0, text.len() as int) =~= text);
}

/// A text that goes on with a piece shows one piece more.
pub proof fn one_more_piece(text: Seq<char>, pieces: Seq<Seq<char>>, piece: Seq<char>)
    requires
        is_laid_out(text, pieces),
    ensures
        is_laid_out(text + piece, pieces.push(piece)),
{
    reveal(is_laid_out);
    let more = pieces.push(piece);
    let longer = text + piece;
    let n = pieces.len() as int;
    same_lengths(pieces, more, n);
    assert forall|i: int| 0 <= i < more.len() implies stands_at(
        longer,
        length_of(more, i),
        #[trigger] more[i],
    ) by {
        same_lengths(pieces, more, i);
        if i < n {
            assert(stands_at(text, length_of(pieces, i), pieces[i]));
            let at = length_of(pieces, i);
            assert(longer.subrange(at, at + pieces[i].len()) =~= text.subrange(
                at,
                at + pieces[i].len(),
            ));
        } else {
            assert(longer.subrange(text.len() as int, longer.len() as int) =~= piece);
        }
    }
}

/// Texts that show the same pieces are the same, and where all pieces but one are the same they
/// are the same only if that one is.
pub proof fn layout_tells_pieces_apart(
    a: Seq<char>,
    b: Seq<char>,
    first: Seq<Seq<char>>,
    second: Seq<Seq<char>>,
    k: int,
)
    requires
        is_laid_out(a, first),
        is_laid_out(b, second),
        first.len() == second.len(),
        0 <= k < first.len(),
        forall|i: int| 0 <= i < first.len() && i != k ==> first[i] == second[i],
        first[k] != second[k],
    ensures
        a != b,
{
    reveal(is_laid_out);
    if a == b {
        lengths_differ_by(first, second, k, first.len() as int);
        same_lengths(first, second, k);
        assert(stands_at(a, length_of(first, k), first[k]));
        assert(stands_at(b, length_of(second, k), second[k]));
    }
}

proof fn lengths_differ_by(first: Seq<Seq<char>>, second: Seq<Seq<char>>, k: int, n: int)
    requires
        first.len() == second.len(),
        0 <= k < n <= first.len(),
        forall|i: int| 0 <= i < first.len() && i != k ==> first[i] == second[i],
    ensures
        length_of(first, n) - length_of(second, n) == first[k].len() - second[k].len(),
    decreases n,
{
    if n - 1 == k {
        same_lengths(first, second, k);
    } else {
        lengths_differ_by(first, second, k, n - 1);
    }
}

} // verus!
