//! Text helpers: paths are compared by the bytes of their UTF-8 encoding,
//! which is the order that `str` itself uses.
use vstd::prelude::*;

verus! {

broadcast use vstd::utf8::group_utf8_lib;

use vstd::string::StrSliceExecFns;
use vstd::string::StringExecFns;

/// The UTF-8 bytes of a character sequence.
pub open spec fn utf8(s: Seq<char>) -> Seq<u8> {
    vstd::utf8::encode_utf8(s)
}

/// Strict lexicographic order on byte sequences (the order of `[u8]` and `str`).
pub open spec fn lex_lt(a: Seq<u8>, b: Seq<u8>) -> bool
    decreases a.len(),
{
    if a.len() == 0 {
        b.len() > 0
    } else if b.len() == 0 {
        false
    } else if a[0] < b[0] {
        true
    } else if a[0] > b[0] {
        false
    } else {
        lex_lt(a.drop_first(), b.drop_first())
    }
}

/// Strict order on paths: by their UTF-8 bytes.
pub open spec fn path_lt(a: Seq<char>, b: Seq<char>) -> bool {
    lex_lt(utf8(a), utf8(b))
}

/// No byte string comes before itself.
pub proof fn lemma_lex_irreflexive(a: Seq<u8>)
    ensures
        !lex_lt(a, a),
    decreases a.len(),
{
    if a.len() > 0 {
        lemma_lex_irreflexive(a.drop_first());
    }
}

/// Of two byte strings, at most one comes before the other.
pub proof fn lemma_lex_asymmetric(a: Seq<u8>, b: Seq<u8>)
    ensures
        lex_lt(a, b) ==> !lex_lt(b, a),
    decreases a.len(),
{
    if a.len() > 0 && b.len() > 0 {
        lemma_lex_asymmetric(a.drop_first(), b.drop_first());
    }
}

/// The byte order is transitive.
pub proof fn lemma_lex_transitive(a: Seq<u8>, b: Seq<u8>, c: Seq<u8>)
    requires
        lex_lt(a, b),
        lex_lt(b, c),
    ensures
        lex_lt(a, c),
    decreases a.len(),
{
    if a.len() > 0 && b.len() > 0 && c.len() > 0 {
        if a[0] == b[0] && b[0] == c[0] {
            lemma_lex_transitive(a.drop_first(), b.drop_first(), c.drop_first());
        }
    }
}

/// Of two different byte strings, one comes before the other.
pub proof fn lemma_lex_total(a: Seq<u8>, b: Seq<u8>)
    ensures
        lex_lt(a, b) || lex_lt(b, a) || a == b,
    decreases a.len(),
{
    if a.len() > 0 && b.len() > 0 {
        lemma_lex_total(a.drop_first(), b.drop_first());
        if a[0] == b[0] && a.drop_first() == b.drop_first() {
            assert(a =~= seq![a[0]] + a.drop_first());
            assert(b =~= seq![b[0]] + b.drop_first());
        }
    } else if a.len() == 0 && b.len() == 0 {
        assert(a =~= b);
    }
}

/// No path comes before itself.
pub proof fn lemma_path_irreflexive(a: Seq<char>)
    ensures
        !path_lt(a, a),
{
    lemma_lex_irreflexive(utf8(a));
}

/// A path that comes before another also comes before any path that the
/// other one is, or comes before.
pub proof fn lemma_path_lt_trans_le(a: Seq<char>, b: Seq<char>, c: Seq<char>)
    requires
        path_lt(a, b),
        b == c || path_lt(b, c),
    ensures
        path_lt(a, c),
{
    if b != c {
        lemma_lex_transitive(utf8(a), utf8(b), utf8(c));
    }
}

/// Two paths with the same bytes are the same path.
pub proof fn lemma_utf8_injective(a: Seq<char>, b: Seq<char>)
    requires
        utf8(a) == utf8(b),
    ensures
        a == b,
{
    vstd::utf8::encode_utf8_decode_utf8(a);
    vstd::utf8::encode_utf8_decode_utf8(b);
}

/// The outcome of comparing two paths.
#[derive(PartialEq, Eq, Structural, Clone, Copy, Debug)]
pub enum PathOrder {
    Less,
    Equal,
    Greater,
}

/// Compare two byte sequences lexicographically.
pub fn compare_bytes(a: &[u8], b: &[u8]) -> (r: PathOrder)
    ensures
        r == PathOrder::Less <==> lex_lt(a@, b@),
        r == PathOrder::Greater <==> lex_lt(b@, a@),
        r == PathOrder::Equal <==> a@ == b@,
{
    let mut i: usize = 0;
    proof {
        assert(a@.skip(0) =~= a@);
        assert(b@.skip(0) =~= b@);
    }
    while i < a.len() && i < b.len()
        invariant
            i <= a@.len(),
            i <= b@.len(),
            a@.take(i as int) =~= b@.take(i as int),
            lex_lt(a@, b@) == lex_lt(a@.skip(i as int), b@.skip(i as int)),
            lex_lt(b@, a@) == lex_lt(b@.skip(i as int), a@.skip(i as int)),
        decreases a.len() - i,
    {
        let x = a[i];
        let y = b[i];
        if x < y {
            return PathOrder::Less;
        }
        if x > y {
            return PathOrder::Greater;
        }
        proof {
            assert(a@.skip(i as int).drop_first() =~= a@.skip(i + 1));
            assert(b@.skip(i as int).drop_first() =~= b@.skip(i + 1));
            assert(a@.take(i + 1) =~= a@.take(i as int).push(x));
            assert(b@.take(i + 1) =~= b@.take(i as int).push(y));
        }
        i = i + 1;
    }
    if i < b.len() {
        return PathOrder::Less;
    }
    if i < a.len() {
        return PathOrder::Greater;
    }
    proof {
        assert(a@ =~= a@.take(i as int));
        assert(b@ =~= b@.take(i as int));
        lemma_lex_irreflexive(a@);
    }
    PathOrder::Equal
}

/// Compare two paths by the bytes of their UTF-8 encoding.
pub fn compare_paths(a: &str, b: &str) -> (r: PathOrder)
    ensures
        r == PathOrder::Less <==> path_lt(a@, b@),
        r == PathOrder::Greater <==> path_lt(b@, a@),
        r == PathOrder::Equal <==> a@ == b@,
{
    let r = compare_bytes(a.as_bytes(), b.as_bytes());
    proof {
        if utf8(a@) == utf8(b@) {
            lemma_utf8_injective(a@, b@);
        }
    }
    r
}

/// `str::strip_prefix` with a string pattern: `Some` of the rest of `s`
/// exactly when `s` starts with `prefix`.
#[verifier::external_body]
pub(crate) fn strip_prefix<'a>(s: &'a str, prefix: &str) -> (r: Option<&'a str>)
    ensures
        r is Some <==> prefix@.is_prefix_of(s@),
        r matches Some(rest) ==> s@ == prefix@ + rest@,
{
    s.strip_prefix(prefix)
}

/// `str::to_owned`, written as a helper so callers read naturally.
pub(crate) fn owned(s: &str) -> (r: String)
    ensures
        r@ == s@,
{
    s.to_owned()
}

/// `str::strip_suffix` with a string pattern: `Some` of the start of `s`
/// exactly when `s` ends with `suffix`.
#[verifier::external_body]
pub(crate) fn strip_suffix<'a>(s: &'a str, suffix: &str) -> (r: Option<&'a str>)
    ensures
        r is Some <==> suffix@.is_suffix_of(s@),
        r matches Some(rest) ==> s@ == rest@ + suffix@,
{
    s.strip_suffix(suffix)
}

/// `str::split_once` with a character: the text before and after the first
/// occurrence of `c`, or `None` when `c` does not occur.
#[verifier::external_body]
pub(crate) fn split_once(s: &str, c: char) -> (r: Option<(&str, &str)>)
    ensures
        r is None <==> !s@.contains(c),
        r matches Some((a, b)) ==> s@ == a@ + seq![c] + b@ && !a@.contains(c),
{
    s.split_once(c)
}

/// The pieces, with `sep` between each two.
pub open spec fn join(pieces: Seq<Seq<char>>, sep: Seq<char>) -> Seq<char>
    decreases pieces.len(),
{
    if pieces.len() == 0 {
        seq![]
    } else if pieces.len() == 1 {
        pieces[0]
    } else {
        join(pieces.drop_last(), sep) + sep + pieces.last()
    }
}

/// The character sequences of some strings.
pub open spec fn strings(v: Seq<String>) -> Seq<Seq<char>> {
    Seq::new(v.len(), |i: int| v[i]@)
}

/// Join the first `count` strings with a separator, as `[String]::join` does.
pub fn join_strings(pieces: &Vec<String>, count: usize, sep: &str) -> (r: String)
    requires
        count <= pieces@.len(),
    ensures
        r@ == join(strings(pieces@.take(count as int)), sep@),
{
    let mut r = String::new();
    let mut i: usize = 0;
    while i < count
        invariant
            count <= pieces@.len(),
            i <= count,
            r@ == join(strings(pieces@.take(i as int)), sep@),
        decreases count - i,
    {
        if i > 0 {
            r.append(sep);
        }
        r.append(pieces[i].as_str());
        proof {
            assert(strings(pieces@.take(i + 1)).drop_last() =~= strings(pieces@.take(i as int)));
            if i == 0 {
                assert(r@ =~= strings(pieces@.take(1))[0]);
            }
        }
        i = i + 1;
    }
    r
}

/// The pieces of `s` split at every `c`: none of them holds `c` and, joined
/// with `c`, they give back `s`.
pub open spec fn is_split(v: Seq<Seq<char>>, s: Seq<char>, c: char) -> bool {
    &&& v.len() >= 1
    &&& join(v, seq![c]) == s
    &&& forall|i: int| 0 <= i < v.len() ==> !(#[trigger] v[i]).contains(c)
}

/// The joined pieces hold `c` exactly where a separator was put: a text
/// joined from two or more pieces holds it.
proof fn lemma_join_contains(v: Seq<Seq<char>>, c: char)
    requires
        v.len() >= 2,
    ensures
        join(v, seq![c]).contains(c),
{
    let j = join(v.drop_last(), seq![c]);
    assert((j + seq![c] + v.last())[j.len() as int] == c);
}

/// A text has one split at a character: the pieces are determined by the
/// text.
pub proof fn lemma_split_unique(v: Seq<Seq<char>>, w: Seq<Seq<char>>, s: Seq<char>, c: char)
    requires
        is_split(v, s, c),
        is_split(w, s, c),
    ensures
        v == w,
    decreases v.len(),
{
    if v.len() == 1 && w.len() == 1 {
        assert(v =~= w);
    } else if v.len() == 1 {
        lemma_join_contains(w, c);
        assert(!v[0].contains(c));
    } else if w.len() == 1 {
        lemma_join_contains(v, c);
        assert(!w[0].contains(c));
    } else {
        let jv = join(v.drop_last(), seq![c]);
        let jw = join(w.drop_last(), seq![c]);
        let kv: int = jv.len() as int + 1;
        let kw: int = jw.len() as int + 1;
        assert(s == jv + seq![c] + v.last());
        assert(s == jw + seq![c] + w.last());
        if kv < kw {
            assert(s[kw - 1] == c);
            assert(v.last()[kw - 1 - kv] == s[kw - 1]);
            assert(v.last().contains(c));
            assert(!v[v.len() - 1].contains(c));
        } else if kw < kv {
            assert(s[kv - 1] == c);
            assert(w.last()[kv - 1 - kw] == s[kv - 1]);
            assert(w.last().contains(c));
            assert(!w[w.len() - 1].contains(c));
        } else {
            assert(jv =~= s.take(kv - 1));
            assert(jw =~= s.take(kw - 1));
            assert(v.last() =~= s.skip(kv));
            assert(w.last() =~= s.skip(kw));
            assert forall|i: int| 0 <= i < v.drop_last().len() implies !(#[trigger] v.drop_last()[i]).contains(c) by {
                assert(v.drop_last()[i] == v[i]);
            }
            assert forall|i: int| 0 <= i < w.drop_last().len() implies !(#[trigger] w.drop_last()[i]).contains(c) by {
                assert(w.drop_last()[i] == w[i]);
            }
            lemma_split_unique(v.drop_last(), w.drop_last(), jv, c);
            assert(v =~= v.drop_last().push(v.last()));
            assert(w =~= w.drop_last().push(w.last()));
        }
    }
}

/// Split a string at every occurrence of `sep`, as `str::split` does: the
/// pieces never contain `sep` and, joined with it, give back the string.
pub fn split_char(s: &str, sep: char) -> (r: Vec<String>)
    ensures
        r@.len() >= 1,
        join(strings(r@), seq![sep]) == s@,
        forall|i: int| 0 <= i < r@.len() ==> !(#[trigger] r@[i]@).contains(sep),
        is_split(strings(r@), s@, sep),
{
    let n = s.unicode_len();
    let mut r: Vec<String> = Vec::new();
    let mut start: usize = 0;
    let mut i: usize = 0;
    while i < n
        invariant
            n == s@.len(),
            start <= i <= n,
            join(strings(r@), seq![sep]) + (if r@.len() > 0 { seq![sep] } else { seq![] }) == s@.take(start as int),
            forall|k: int| 0 <= k < r@.len() ==> !(#[trigger] r@[k]@).contains(sep),
            forall|k: int| start <= k < i ==> s@[k] != sep,
            r@.len() == 0 ==> start == 0,
        decreases n - i,
    {
        if s.get_char(i) == sep {
            let piece = owned(s.substring_char(start, i));
            proof {
                assert(piece@ =~= s@.subrange(start as int, i as int));
                assert forall|k: int| 0 <= k < piece@.len() implies piece@[k] != sep by {
                    assert(piece@[k] == s@[start + k]);
                }
            }
            let ghost old_r = r@;
            r.push(piece);
            proof {
                assert(strings(r@).drop_last() =~= strings(old_r));
                assert(s@.take(i + 1) =~= s@.take(start as int) + s@.subrange(start as int, i as int) + seq![sep]);
                if old_r.len() == 0 {
                    assert(s@.take(start as int) =~= Seq::<char>::empty());
                    assert(strings(r@)[0] == piece@);
                    assert(join(strings(r@), seq![sep]) == piece@);
                }
                assert(join(strings(r@), seq![sep]) + seq![sep] =~= s@.take(i + 1));
            }
            start = i + 1;
        }
        i = i + 1;
    }
    let last = owned(s.substring_char(start, n));
    let ghost old_r = r@;
    r.push(last);
    proof {
        assert(last@ =~= s@.subrange(start as int, n as int));
        assert forall|k: int| 0 <= k < last@.len() implies last@[k] != sep by {
            assert(last@[k] == s@[start + k]);
        }
        assert(strings(r@).drop_last() =~= strings(old_r));
        if old_r.len() == 0 {
            assert(strings(r@)[0] == last@);
            assert(s@ =~= last@);
        } else {
            assert(s@ =~= s@.take(start as int) + s@.subrange(start as int, n as int));
        }
        assert(forall|k: int| 0 <= k < r@.len() ==> !(#[trigger] r@[k]@).contains(sep)) by {
            assert forall|k: int| 0 <= k < r@.len() implies !(#[trigger] r@[k]@).contains(sep) by {
                if k < old_r.len() {
                    assert(r@[k] == old_r[k]);
                }
            }
        }
    }
    r
}

} // verus!
