//! String-level helpers: lexicographic comparison and equality of character
//! sequences, with verified executable counterparts for `&str`.

use vstd::prelude::*;
use vstd::string::*;

verus! {

/// Lexicographic order on character sequences, comparing code points.
/// This agrees with the byte order of the UTF-8 encodings, since UTF-8
/// preserves code-point order.
pub open spec fn lex_le(a: Seq<char>, b: Seq<char>) -> bool
    decreases a.len(),
{
    if a.len() == 0 {
        true
    } else if b.len() == 0 {
        false
    } else if a[0] == b[0] {
        lex_le(a.drop_first(), b.drop_first())
    } else {
        (a[0] as u32) < (b[0] as u32)
    }
}

/// Strict lexicographic order.
pub open spec fn lex_lt(a: Seq<char>, b: Seq<char>) -> bool {
    lex_le(a, b) && a != b
}

pub proof fn lemma_lex_le_refl(a: Seq<char>)
    ensures
        lex_le(a, a),
    decreases a.len(),
{
    if a.len() > 0 {
        lemma_lex_le_refl(a.drop_first());
    }
}

/// Two characters with the same code point are the same character.
proof fn lemma_char_cast_injective(c1: char, c2: char)
    requires
        c1 as u32 == c2 as u32,
    ensures
        c1 == c2,
{
    vstd::utf8::char_u32_cast(c1, c1 as u32);
    vstd::utf8::char_u32_cast(c2, c2 as u32);
}

pub proof fn lemma_lex_le_total(a: Seq<char>, b: Seq<char>)
    ensures
        lex_le(a, b) || lex_le(b, a),
    decreases a.len(),
{
    if a.len() > 0 && b.len() > 0 {
        if a[0] == b[0] {
            lemma_lex_le_total(a.drop_first(), b.drop_first());
        } else if a[0] as u32 == b[0] as u32 {
            lemma_char_cast_injective(a[0], b[0]);
        }
    }
}

pub proof fn lemma_lex_le_antisym(a: Seq<char>, b: Seq<char>)
    requires
        lex_le(a, b),
        lex_le(b, a),
    ensures
        a == b,
    decreases a.len(),
{
    if a.len() == 0 {
        assert(b.len() == 0);
        assert(a =~= b);
    } else {
        assert(b.len() > 0);
        assert(a[0] == b[0]);
        lemma_lex_le_antisym(a.drop_first(), b.drop_first());
        assert(a.drop_first().len() == b.drop_first().len());
        assert(a.len() == b.len());
        assert forall|i: int| 0 <= i < a.len() implies a[i] == b[i] by {
            if i > 0 {
                assert(a[i] == a.drop_first()[i - 1]);
                assert(b[i] == b.drop_first()[i - 1]);
            }
        }
        assert(a =~= b);
    }
}

pub proof fn lemma_lex_le_trans(a: Seq<char>, b: Seq<char>, c: Seq<char>)
    requires
        lex_le(a, b),
        lex_le(b, c),
    ensures
        lex_le(a, c),
    decreases a.len(),
{
    if a.len() > 0 && b.len() > 0 && c.len() > 0 && a[0] == b[0] && b[0] == c[0] {
        lemma_lex_le_trans(a.drop_first(), b.drop_first(), c.drop_first());
    }
}

/// The views of a sequence of owned strings.
pub open spec fn views(vs: Seq<String>) -> Seq<Seq<char>> {
    vs.map_values(|t: String| t@)
}

pub proof fn lemma_views_push(vs: Seq<String>, x: String)
    ensures
        views(vs.push(x)) == views(vs).push(x@),
{
    assert(views(vs.push(x)) =~= views(vs).push(x@));
}

pub open spec fn has_newline(s: Seq<char>) -> bool {
    exists|k: int| 0 <= k < s.len() && s[k] == '\n'
}

/// The lines of `s`: the maximal newline-free segments, in order, with empty
/// segments kept. A text without any newline is a single line, so the result
/// always holds at least one element.
pub open spec fn spec_lines(s: Seq<char>) -> Seq<Seq<char>>
    decreases s.len(),
{
    if s.len() == 0 {
        seq![Seq::<char>::empty()]
    } else if s[0] == '\n' {
        seq![Seq::<char>::empty()] + spec_lines(s.drop_first())
    } else {
        let rest = spec_lines(s.drop_first());
        seq![seq![s[0]] + rest[0]] + rest.drop_first()
    }
}

pub proof fn lemma_spec_lines_len(s: Seq<char>)
    ensures
        spec_lines(s).len() >= 1,
    decreases s.len(),
{
    if s.len() > 0 {
        lemma_spec_lines_len(s.drop_first());
    }
}

pub proof fn lemma_spec_lines_no_newline(s: Seq<char>)
    requires
        !has_newline(s),
    ensures
        spec_lines(s) == seq![s],
    decreases s.len(),
{
    if s.len() == 0 {
        assert(spec_lines(s) =~~= seq![s]);
    } else {
        assert(s[0] != '\n');
        assert(!has_newline(s.drop_first())) by {
            if has_newline(s.drop_first()) {
                let k = choose|k: int| 0 <= k < s.drop_first().len() && s.drop_first()[k] == '\n';
                assert(s[k + 1] == '\n');
            }
        }
        lemma_spec_lines_no_newline(s.drop_first());
        lemma_spec_lines_len(s.drop_first());
        assert(seq![s[0]] + s.drop_first() =~= s);
        assert(spec_lines(s) =~~= seq![s]);
    }
}

/// Splitting off the first line: if the first newline of `s` stands at `i`,
/// the lines of `s` are `s` up to `i` followed by the lines of the rest.
pub proof fn lemma_spec_lines_split(s: Seq<char>, i: int)
    requires
        0 <= i < s.len(),
        s[i] == '\n',
        forall|k: int| 0 <= k < i ==> s[k] != '\n',
    ensures
        spec_lines(s) == seq![s.take(i)] + spec_lines(s.skip(i + 1)),
    decreases i,
{
    if i == 0 {
        assert(s.take(0) =~= Seq::<char>::empty());
        assert(s.drop_first() =~= s.skip(1));
        assert(spec_lines(s) =~~= seq![s.take(0)] + spec_lines(s.skip(1)));
    } else {
        let d = s.drop_first();
        assert(d[i - 1] == '\n');
        assert forall|k: int| 0 <= k < i - 1 implies d[k] != '\n' by {
            assert(d[k] == s[k + 1]);
        }
        lemma_spec_lines_split(d, i - 1);
        let rest = spec_lines(d);
        lemma_spec_lines_len(s.skip(i + 1));
        assert(rest[0] == d.take(i - 1));
        assert(rest.drop_first() =~= spec_lines(d.skip(i)));
        assert(seq![s[0]] + d.take(i - 1) =~= s.take(i));
        assert(d.skip(i) =~= s.skip(i + 1));
        assert(spec_lines(s) =~~= seq![s.take(i)] + spec_lines(s.skip(i + 1)));
    }
}

/// Splits a text into its lines, as [`spec_lines`] describes.
pub fn split_lines(s: &str) -> (r: Vec<String>)
    ensures
        views(r@) == spec_lines(s@),
{
    let len: usize = s.unicode_len();
    let mut r: Vec<String> = Vec::new();
    let mut start: usize = 0;
    let mut i: usize = 0;
    proof {
        assert(s@.skip(0) =~= s@);
        assert(views(r@) =~= Seq::<Seq<char>>::empty());
    }
    while i < len
        invariant
            start <= i <= len,
            len == s@.len(),
            forall|k: int| start <= k < i ==> s@[k] != '\n',
            spec_lines(s@) == views(r@) + spec_lines(s@.skip(start as int)),
        decreases len - i,
    {
        let c = s.get_char(i);
        if c == '\n' {
            let piece = s.substring_char(start, i);
            let owned = String::from_str(piece);
            proof {
                let tail = s@.skip(start as int);
                assert(tail[i - start as int] == s@[i as int]);
                assert forall|k: int| 0 <= k < i - start as int implies tail[k] != '\n' by {
                    assert(tail[k] == s@[k + start as int]);
                }
                lemma_spec_lines_split(tail, i - start as int);
                assert(tail.take(i - start as int) =~= s@.subrange(start as int, i as int));
                assert(tail.skip(i - start as int + 1) =~= s@.skip(i as int + 1));
                lemma_views_push(r@, owned);
                assert(views(r@.push(owned)) + spec_lines(s@.skip(i as int + 1)) =~=
                    views(r@) + spec_lines(tail));
            }
            r.push(owned);
            start = i + 1;
        }
        i = i + 1;
    }
    let piece = s.substring_char(start, len);
    let owned = String::from_str(piece);
    proof {
        let tail = s@.skip(start as int);
        assert(!has_newline(tail)) by {
            if has_newline(tail) {
                let k = choose|k: int| 0 <= k < tail.len() && tail[k] == '\n';
                assert(s@[k + start as int] == '\n');
            }
        }
        lemma_spec_lines_no_newline(tail);
        assert(tail =~= s@.subrange(start as int, len as int));
        lemma_views_push(r@, owned);
        assert(views(r@.push(owned)) =~= views(r@) + seq![owned@]);
    }
    r.push(owned);
    r
}

/// `s` with every trailing newline removed.
pub open spec fn strip_trailing_newlines(s: Seq<char>) -> Seq<char>
    decreases s.len(),
{
    if s.len() > 0 && s.last() == '\n' {
        strip_trailing_newlines(s.drop_last())
    } else {
        s
    }
}

/// Removes every trailing newline of `s`.
pub fn trim_trailing_newlines(s: &str) -> (r: String)
    ensures
        r@ == strip_trailing_newlines(s@),
{
    let len: usize = s.unicode_len();
    let mut end: usize = len;
    proof {
        assert(s@.take(len as int) =~= s@);
    }
    loop
        invariant
            end <= len,
            len == s@.len(),
            strip_trailing_newlines(s@) == strip_trailing_newlines(s@.take(end as int)),
        ensures
            end <= len,
            len == s@.len(),
            strip_trailing_newlines(s@) == strip_trailing_newlines(s@.take(end as int)),
            end == 0 || s@[end - 1] != '\n',
        decreases end,
    {
        if end == 0 {
            break;
        }
        let c = s.get_char(end - 1);
        if c != '\n' {
            break;
        }
        proof {
            assert(s@.take(end as int).last() == s@[end - 1]);
            assert(s@.take(end as int).drop_last() =~= s@.take(end as int - 1));
        }
        end = end - 1;
    }
    proof {
        if end > 0 {
            assert(s@.take(end as int).last() == s@[end - 1]);
        }
        assert(strip_trailing_newlines(s@.take(end as int)) == s@.take(end as int));
    }
    let piece = s.substring_char(0, end);
    String::from_str(piece)
}

/// Character-wise equality of two string slices.
pub fn str_eq(a: &str, b: &str) -> (r: bool)
    ensures
        r == (a@ == b@),
{
    let alen: usize = a.unicode_len();
    let blen: usize = b.unicode_len();
    if alen != blen {
        return false;
    }
    let mut i: usize = 0;
    while i < alen
        invariant
            i <= alen,
            alen == a@.len(),
            alen == b@.len(),
            forall|k: int| 0 <= k < i ==> a@[k] == b@[k],
        decreases alen - i,
    {
        let ca = a.get_char(i);
        let cb = b.get_char(i);
        if ca != cb {
            return false;
        }
        i = i + 1;
    }
    proof {
        assert(a@ =~= b@);
    }
    true
}

/// Lexicographic comparison of two string slices.
pub fn str_le(a: &str, b: &str) -> (r: bool)
    ensures
        r == lex_le(a@, b@),
{
    let alen: usize = a.unicode_len();
    let blen: usize = b.unicode_len();
    proof {
        assert(a@.skip(0) =~= a@);
        assert(b@.skip(0) =~= b@);
    }
    let mut i: usize = 0;
    while i < alen && i < blen
        invariant
            i <= alen,
            i <= blen,
            alen == a@.len(),
            blen == b@.len(),
            lex_le(a@, b@) == lex_le(a@.skip(i as int), b@.skip(i as int)),
        decreases alen - i,
    {
        let ca = a.get_char(i);
        let cb = b.get_char(i);
        proof {
            assert(a@.skip(i as int)[0] == a@[i as int]);
            assert(b@.skip(i as int)[0] == b@[i as int]);
        }
        if ca != cb {
            return (ca as u32) < (cb as u32);
        }
        proof {
            assert(a@.skip(i as int).drop_first() =~= a@.skip(i as int + 1));
            assert(b@.skip(i as int).drop_first() =~= b@.skip(i as int + 1));
        }
        i = i + 1;
    }
    proof {
        if i >= alen {
            assert(a@.skip(i as int).len() == 0);
        } else {
            assert(b@.skip(i as int).len() == 0);
            assert(a@.skip(i as int).len() > 0);
        }
    }
    alen <= blen
}

} // verus!
