//! Operations on text, stated over its characters.

use vstd::prelude::*;
use vstd::utf8::*;

verus! {

/// `s` without the slashes it begins and ends with.
pub open spec fn trimmed(s: Seq<char>) -> Seq<char>
    decreases s.len(),
{
    if s.len() > 0 && s.first() == '/' {
        trimmed(s.drop_first())
    } else if s.len() > 0 && s.last() == '/' {
        trimmed(s.drop_last())
    } else {
        s
    }
}

/// What is trimmed neither begins nor ends with a slash, and trimming it again changes nothing.
pub proof fn law_trimmed_is_clean(s: Seq<char>)
    ensures
        trimmed(trimmed(s)) == trimmed(s),
        trimmed(s).len() > 0 ==> trimmed(s).first() != '/' && trimmed(s).last() != '/',
    decreases s.len(),
{
    if s.len() > 0 && s.first() == '/' {
        law_trimmed_is_clean(s.drop_first());
    } else if s.len() > 0 && s.last() == '/' {
        law_trimmed_is_clean(s.drop_last());
    }
}

/// Trimming takes away slashes at both ends and nothing else: what is left stands between `kept.0`
/// and `kept.1`, and everything outside is a slash.
pub proof fn law_trimmed_drops_outer_slashes_only(s: Seq<char>) -> (kept: (int, int))
    ensures
        0 <= kept.0 <= kept.1 <= s.len(),
        trimmed(s) == s.subrange(kept.0, kept.1),
        forall|i: int| 0 <= i < kept.0 || kept.1 <= i < s.len() ==> #[trigger] s[i] == '/',
        trimmed(s).len() == 0 <==> forall|i: int| 0 <= i < s.len() ==> #[trigger] s[i] == '/',
    decreases s.len(),
{
    let kept: (int, int) = if s.len() > 0 && s.first() == '/' {
        let rest = s.drop_first();
        let inner = law_trimmed_drops_outer_slashes_only(rest);
        assert(trimmed(s) =~= s.subrange(inner.0 + 1, inner.1 + 1));
        assert forall|i: int| 0 <= i < inner.0 + 1 || inner.1 + 1 <= i < s.len() implies #[trigger] s[i]
            == '/' by {
            if i > 0 {
                assert(rest[i - 1] == s[i]);
            }
        }
        (inner.0 + 1, inner.1 + 1)
    } else if s.len() > 0 && s.last() == '/' {
        let rest = s.drop_last();
        let inner = law_trimmed_drops_outer_slashes_only(rest);
        assert(trimmed(s) =~= s.subrange(inner.0, inner.1));
        assert forall|i: int| 0 <= i < inner.0 || inner.1 <= i < s.len() implies #[trigger] s[i]
            == '/' by {
            if i < rest.len() {
                assert(rest[i] == s[i]);
            }
        }
        inner
    } else {
        assert(trimmed(s) =~= s.subrange(0, s.len() as int));
        (0, s.len() as int)
    };
    if trimmed(s).len() > 0 {
        law_trimmed_is_clean(s);
        assert(trimmed(s).first() == s[kept.0]);
    }
    kept
}

/// A slash more in front or behind makes no difference.
pub proof fn law_trimmed_ignores_slashes(s: Seq<char>)
    ensures
        trimmed(seq!['/'] + s) == trimmed(s),
        trimmed(s.push('/')) == trimmed(s),
    decreases s.len(),
{
    let before = seq!['/'] + s;
    assert(before.first() == '/');
    assert(before.drop_first() =~= s);
    let behind = s.push('/');
    assert(behind.last() == '/');
    if s.len() > 0 && s.first() == '/' {
        assert(behind.first() == '/');
        assert(behind.drop_first() =~= s.drop_first().push('/'));
        law_trimmed_ignores_slashes(s.drop_first());
    } else if s.len() > 0 {
        assert(behind.first() == s.first());
        assert(behind.drop_last() =~= s);
    } else {
        assert(behind.drop_first() =~= s);
    }
}

/// Whether two strings hold the same characters.
pub fn same_text(a: &str, b: &str) -> (r: bool)
    ensures
        r == (a@ == b@),
{
    let x = a.as_bytes();
    let y = b.as_bytes();
    if x.len() != y.len() {
        return false;
    }
    let n: usize = x.len();
    let mut i: usize = 0;
    while i < n
        invariant
            i <= n,
            n == x@.len(),
            n == y@.len(),
            x@ == encode_utf8(a@),
            y@ == encode_utf8(b@),
            forall|k: int| 0 <= k < i ==> x@[k] == y@[k],
        decreases n - i,
    {
        if x[i] != y[i] {
            return false;
        }
        i = i + 1;
    }
    proof {
        assert(x@ =~= y@);
        encode_utf8_decode_utf8(a@);
        encode_utf8_decode_utf8(b@);
    }
    true
}

/// Removes the slashes that `s` begins and ends with.
pub fn trim_slashes(s: &str) -> (r: String)
    ensures
        r@ == trimmed(s@),
{
    let n: usize = s.unicode_len();
    let mut from: usize = 0;
    assert(s@.subrange(0, n as int) =~= s@);
    while from < n && s.get_char(from) == '/'
        invariant
            from <= n,
            n == s@.len(),
            trimmed(s@) == trimmed(s@.subrange(from as int, n as int)),
        ensures
            from <= n,
            trimmed(s@) == trimmed(s@.subrange(from as int, n as int)),
            from < n ==> s@[from as int] != '/',
        decreases n - from,
    {
        assert(s@.subrange(from as int, n as int).drop_first() =~= s@.subrange(from + 1, n as int));
        from = from + 1;
    }
    let mut to: usize = n;
    while from < to && s.get_char(to - 1) == '/'
        invariant
            from <= to <= n,
            n == s@.len(),
            from < n ==> s@[from as int] != '/',
            trimmed(s@) == trimmed(s@.subrange(from as int, to as int)),
        ensures
            from <= to <= n,
            trimmed(s@) == trimmed(s@.subrange(from as int, to as int)),
            from < to ==> s@[from as int] != '/' && s@[to - 1] != '/',
        decreases to - from,
    {
        assert(s@.subrange(from as int, to as int).drop_last() =~= s@.subrange(from as int, to - 1));
        to = to - 1;
    }
    s.substring_char(from, to).to_owned()
}

/// Encoding text piece by piece gives the same bytes as encoding it whole.
pub proof fn lemma_encode_concat(a: Seq<char>, b: Seq<char>)
    ensures
        encode_utf8(a + b) == encode_utf8(a) + encode_utf8(b),
    decreases a.len(),
{
    if a.len() == 0 {
        assert(a + b =~= b);
        assert(encode_utf8(a) + encode_utf8(b) =~= encode_utf8(b));
    } else {
        lemma_encode_concat(a.drop_first(), b);
        assert((a + b).drop_first() =~= a.drop_first() + b);
        assert((a + b)[0] == a[0]);
        assert(encode_utf8(a + b) =~= encode_utf8(a) + encode_utf8(b));
    }
}

/// Of two beginnings of the same text, the one with more characters is the one with more bytes.
pub proof fn lemma_prefixes_order_by_bytes(a: Seq<char>, b: Seq<char>, text: Seq<char>)
    requires
        a.is_prefix_of(text),
        b.is_prefix_of(text),
    ensures
        a.len() <= b.len() <==> encode_utf8(a).len() <= encode_utf8(b).len(),
{
    if a.len() <= b.len() {
        lemma_prefix_bytes(a, b, text);
    }
    if b.len() <= a.len() {
        lemma_prefix_bytes(b, a, text);
    }
}

proof fn lemma_prefix_bytes(a: Seq<char>, b: Seq<char>, text: Seq<char>)
    requires
        a.is_prefix_of(text),
        b.is_prefix_of(text),
        a.len() <= b.len(),
    ensures
        encode_utf8(a).len() <= encode_utf8(b).len(),
        a.len() < b.len() ==> encode_utf8(a).len() < encode_utf8(b).len(),
{
    let rest = b.skip(a.len() as int);
    assert(a =~= text.take(a.len() as int));
    assert(b =~= text.take(b.len() as int));
    assert(b =~= a + rest);
    lemma_encode_concat(a, rest);
    if rest.len() > 0 {
        assert(encode_utf8(rest) == encode_scalar(rest[0] as u32) + encode_utf8(rest.drop_first()));
    }
}

} // verus!
