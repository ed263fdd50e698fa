//! Writing a path as a path expression, and that reading it gives the path
//! again.

use crate::path::{
    decimal, digits_end, is_delimiter, is_digit, key_end, lemma_decimal_push, lex_index, lex_key,
    lex_path, lex_rest, PathError, Segment, CLOSE, DOT, OPEN, ZERO,
};
use vstd::prelude::*;

verus! {

/// Whether a byte string can stand as a key in a path expression: it is
/// not empty and holds none of `.`, `[` and `]`.
pub open spec fn plain_key(k: Seq<u8>) -> bool {
    k.len() > 0 && forall|i: int| 0 <= i < k.len() ==> !is_delimiter(#[trigger] k[i])
}

/// Whether a path expression can hold the component: a key that is plain,
/// or an index that fits the machine's word.
pub open spec fn writable(segment: Segment) -> bool {
    match segment {
        Segment::Key(k) => plain_key(k),
        Segment::Index(i) => i <= usize::MAX,
    }
}

/// Whether a path expression can hold each component of the path.
pub open spec fn writable_path(path: Seq<Segment>) -> bool {
    forall|i: int| 0 <= i < path.len() ==> writable(#[trigger] path[i])
}

/// The decimal digits of a number, without leading zeros.
pub open spec fn digits(n: nat) -> Seq<u8>
    decreases n,
{
    if n < 10 {
        seq![(ZERO + n) as u8]
    } else {
        digits(n / 10).push((ZERO + n % 10) as u8)
    }
}

/// A component as it is written behind another: `.key` or `[index]`.
pub open spec fn piece(segment: Segment) -> Seq<u8> {
    match segment {
        Segment::Key(k) => seq![DOT] + k,
        Segment::Index(i) => seq![OPEN] + digits(i) + seq![CLOSE],
    }
}

/// The components as they are written behind another component.
pub open spec fn render_tail(path: Seq<Segment>) -> Seq<u8>
    decreases path.len(),
{
    if path.len() == 0 {
        Seq::empty()
    } else {
        piece(path[0]) + render_tail(path.skip(1))
    }
}

/// The path expression for a path: a leading key stands without a dot.
pub open spec fn render(path: Seq<Segment>) -> Seq<u8> {
    if path.len() == 0 {
        Seq::empty()
    } else {
        match path[0] {
            Segment::Key(k) => k + render_tail(path.skip(1)),
            Segment::Index(_) => render_tail(path),
        }
    }
}

/// The digits of a number are digits, at least one, and stand for the
/// number.
pub proof fn lemma_digits(n: nat)
    ensures
        digits(n).len() > 0,
        forall|i: int| 0 <= i < digits(n).len() ==> is_digit(#[trigger] digits(n)[i]),
        decimal(digits(n)) == n,
    decreases n,
{
    if n < 10 {
        let b = (ZERO + n) as u8;
        assert(digits(n) =~= Seq::<u8>::empty().push(b));
        lemma_decimal_push(Seq::<u8>::empty(), b);
    } else {
        let b = (ZERO + n % 10) as u8;
        lemma_digits(n / 10);
        lemma_decimal_push(digits(n / 10), b);
    }
}

/// A run of `n` bytes that are no delimiters, with a delimiter or the end
/// of the text behind it, is a key.
proof fn lemma_key_run(s: Seq<u8>, pos: int, n: int)
    requires
        0 <= pos,
        0 <= n,
        pos + n <= s.len(),
        forall|i: int| pos <= i < pos + n ==> !is_delimiter(#[trigger] s[i]),
        pos + n == s.len() || is_delimiter(s[pos + n]),
    ensures
        key_end(s, pos) == pos + n,
    decreases n,
{
    if n > 0 {
        lemma_key_run(s, pos + 1, n - 1);
    }
}

/// A run of `n` digits, with another byte or the end of the text behind
/// it, ends there.
proof fn lemma_digit_run(s: Seq<u8>, pos: int, n: int)
    requires
        0 <= pos,
        0 <= n,
        pos + n <= s.len(),
        forall|i: int| pos <= i < pos + n ==> is_digit(#[trigger] s[i]),
        pos + n == s.len() || !is_digit(s[pos + n]),
    ensures
        digits_end(s, pos) == pos + n,
    decreases n,
{
    if n > 0 {
        lemma_digit_run(s, pos + 1, n - 1);
    }
}

/// What is written behind a component starts with `.` or `[`.
proof fn lemma_tail_starts(path: Seq<Segment>)
    requires
        path.len() > 0,
    ensures
        render_tail(path).len() > 0,
        render_tail(path)[0] == DOT || render_tail(path)[0] == OPEN,
{
    let head = piece(path[0]);
    assert(head.len() > 0 && (head[0] == DOT || head[0] == OPEN));
    assert(render_tail(path)[0] == head[0]);
}

/// In a text that holds, from `pos` on, components as they are written
/// behind another, those components follow.
proof fn lemma_lex_tail(s: Seq<u8>, pos: int, path: Seq<Segment>)
    requires
        writable_path(path),
        0 <= pos <= s.len(),
        s.subrange(pos, s.len() as int) == render_tail(path),
    ensures
        lex_rest(s, pos) == Ok::<Seq<Segment>, PathError>(path),
    decreases path.len(), 1int,
{
    let tail = s.subrange(pos, s.len() as int);
    assert(tail.len() == s.len() - pos);
    if path.len() == 0 {
        assert(path =~= Seq::<Segment>::empty());
    } else {
        let rest = path.skip(1);
        let after = render_tail(rest);
        assert(writable(path[0]));
        assert forall|i: int| 0 <= i < rest.len() implies writable(#[trigger] rest[i]) by {
            assert(rest[i] == path[i + 1]);
        }
        assert(seq![path[0]] + rest =~= path);
        assert(tail == piece(path[0]) + after);
        assert(s[pos] == tail[0]);
        match path[0] {
            Segment::Key(k) => {
                assert(tail.len() == 1 + k.len() + after.len());
                assert forall|j: int| 0 <= j < k.len() + after.len() implies s.subrange(
                    pos + 1,
                    s.len() as int,
                )[j] == (k + after)[j] by {
                    assert(s[pos + 1 + j] == tail[1 + j]);
                }
                assert(s.subrange(pos + 1, s.len() as int) =~= k + after);
                lemma_lex_key_at(s, pos + 1, k, rest);
            },
            Segment::Index(i) => {
                lemma_lex_index_at(s, pos, i, rest);
            },
        }
    }
}

/// In a text that holds, from `pos` on, a key and then components as they
/// are written behind it, the key and those components follow.
proof fn lemma_lex_key_at(s: Seq<u8>, pos: int, k: Seq<u8>, rest: Seq<Segment>)
    requires
        plain_key(k),
        writable_path(rest),
        0 <= pos <= s.len(),
        s.subrange(pos, s.len() as int) == k + render_tail(rest),
    ensures
        lex_key(s, pos) == Ok::<Seq<Segment>, PathError>(seq![Segment::Key(k)] + rest),
    decreases rest.len(), 2int,
{
    let tail = s.subrange(pos, s.len() as int);
    let after = render_tail(rest);
    let end = pos + k.len();
    assert(tail.len() == s.len() - pos);
    assert(tail.len() == k.len() + after.len());
    assert forall|i: int| pos <= i < end implies !is_delimiter(#[trigger] s[i]) by {
        assert(s[i] == tail[i - pos]);
        assert(tail[i - pos] == k[i - pos]);
    }
    if rest.len() > 0 {
        lemma_tail_starts(rest);
        assert(s[end] == tail[k.len() as int]);
        assert(tail[k.len() as int] == after[0]);
    }
    lemma_key_run(s, pos, k.len() as int);
    assert(s.subrange(pos, end) =~= k) by {
        assert forall|j: int| 0 <= j < k.len() implies s.subrange(pos, end)[j] == k[j] by {
            assert(s[pos + j] == tail[j]);
        }
    }
    assert(s.subrange(end, s.len() as int) =~= after) by {
        assert forall|j: int| 0 <= j < after.len() implies s.subrange(end, s.len() as int)[j]
            == after[j] by {
            assert(s[end + j] == tail[k.len() + j]);
        }
    }
    lemma_lex_tail(s, end, rest);
}

/// In a text that holds, from `pos` on, an index between brackets and then
/// components as they are written behind it, the index and those
/// components follow.
proof fn lemma_lex_index_at(s: Seq<u8>, pos: int, i: nat, rest: Seq<Segment>)
    requires
        i <= usize::MAX,
        writable_path(rest),
        0 <= pos <= s.len(),
        s.subrange(pos, s.len() as int) == seq![OPEN] + digits(i) + seq![CLOSE] + render_tail(rest),
    ensures
        lex_index(s, pos) == Ok::<Seq<Segment>, PathError>(seq![Segment::Index(i)] + rest),
    decreases rest.len(), 2int,
{
    let tail = s.subrange(pos, s.len() as int);
    let d = digits(i);
    let after = render_tail(rest);
    let start = pos + 1;
    let end = start + d.len();
    lemma_digits(i);
    assert(tail.len() == s.len() - pos);
    assert(tail.len() == 1 + d.len() + 1 + after.len());
    assert forall|j: int| start <= j < end implies is_digit(#[trigger] s[j]) by {
        assert(s[j] == tail[j - pos]);
        assert(tail[j - pos] == d[j - start]);
    }
    assert(s[end] == CLOSE) by {
        assert(s[end] == tail[end - pos]);
    }
    lemma_digit_run(s, start, d.len() as int);
    assert(s.subrange(start, end) =~= d) by {
        assert forall|j: int| 0 <= j < d.len() implies s.subrange(start, end)[j] == d[j] by {
            assert(s[start + j] == tail[1 + j]);
        }
    }
    assert(s.subrange(end + 1, s.len() as int) =~= after) by {
        assert forall|j: int| 0 <= j < after.len() implies s.subrange(end + 1, s.len() as int)[j]
            == after[j] by {
            assert(s[end + 1 + j] == tail[1 + d.len() + 1 + j]);
        }
    }
    lemma_lex_tail(s, end + 1, rest);
}

/// Reading the path expression of a path gives the path again, for every
/// path of plain keys and of indices that fit the machine's word.
pub proof fn law_render_lexes(path: Seq<Segment>)
    requires
        writable_path(path),
    ensures
        lex_path(render(path)) == Ok::<Seq<Segment>, PathError>(path),
{
    let s = render(path);
    if path.len() == 0 {
        assert(path =~= Seq::<Segment>::empty());
    } else {
        let rest = path.skip(1);
        assert(writable(path[0]));
        assert forall|i: int| 0 <= i < rest.len() implies writable(#[trigger] rest[i]) by {
            assert(rest[i] == path[i + 1]);
        }
        assert(seq![path[0]] + rest =~= path);
        assert(s.subrange(0, s.len() as int) =~= s);
        match path[0] {
            Segment::Key(k) => {
                assert(s[0] == k[0]);
                lemma_lex_key_at(s, 0, k, rest);
            },
            Segment::Index(i) => {
                assert(s[0] == OPEN);
                lemma_lex_index_at(s, 0, i, rest);
            },
        }
    }
}

} // verus!
