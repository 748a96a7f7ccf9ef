//! XML escaping for text nodes and attribute values, with the proofs that
//! escaped text carries no markup characters and that escaping loses nothing:
//! the original text can be read back out of the escaped form.

use vstd::prelude::*;
use vstd::string::*;

verus! {

/// The escaped form of one character: `&`, `<`, `>` and `"` become entity
/// references, every other character stands for itself.
pub open spec fn esc_char(c: char) -> Seq<char> {
    if c == '&' {
        seq!['&', 'a', 'm', 'p', ';']
    } else if c == '<' {
        seq!['&', 'l', 't', ';']
    } else if c == '>' {
        seq!['&', 'g', 't', ';']
    } else if c == '"' {
        seq!['&', 'q', 'u', 'o', 't', ';']
    } else {
        seq![c]
    }
}

/// The escaped form of a text: each character escaped, in order.
pub open spec fn spec_escape(s: Seq<char>) -> Seq<char>
    decreases s.len(),
{
    if s.len() == 0 {
        Seq::empty()
    } else {
        esc_char(s[0]) + spec_escape(s.drop_first())
    }
}

/// Reads an escaped text back: a recognized entity yields its character,
/// anything else is taken literally.
pub open spec fn spec_unescape(s: Seq<char>) -> Seq<char>
    decreases s.len(),
{
    if s.len() == 0 {
        Seq::empty()
    } else if s.len() >= 5 && s.subrange(0, 5) == esc_char('&') {
        seq!['&'] + spec_unescape(s.skip(5))
    } else if s.len() >= 4 && s.subrange(0, 4) == esc_char('<') {
        seq!['<'] + spec_unescape(s.skip(4))
    } else if s.len() >= 4 && s.subrange(0, 4) == esc_char('>') {
        seq!['>'] + spec_unescape(s.skip(4))
    } else if s.len() >= 6 && s.subrange(0, 6) == esc_char('"') {
        seq!['"'] + spec_unescape(s.skip(6))
    } else {
        seq![s[0]] + spec_unescape(s.drop_first())
    }
}

/// Escaping distributes over concatenation.
pub proof fn lemma_escape_concat(a: Seq<char>, b: Seq<char>)
    ensures
        spec_escape(a + b) == spec_escape(a) + spec_escape(b),
    decreases a.len(),
{
    if a.len() == 0 {
        assert(a + b =~= b);
        assert(spec_escape(a) + spec_escape(b) =~= spec_escape(b));
    } else {
        assert((a + b).drop_first() =~= a.drop_first() + b);
        assert((a + b)[0] == a[0]);
        lemma_escape_concat(a.drop_first(), b);
        assert(esc_char(a[0]) + (spec_escape(a.drop_first()) + spec_escape(b))
            =~= (esc_char(a[0]) + spec_escape(a.drop_first())) + spec_escape(b));
    }
}

/// The escaped form of a single character is its `esc_char`.
pub proof fn lemma_escape_singleton(c: char)
    ensures
        spec_escape(seq![c]) == esc_char(c),
{
    assert(seq![c][0] == c);
    assert(seq![c].drop_first() =~= Seq::<char>::empty());
    assert(spec_escape(Seq::<char>::empty()) == Seq::<char>::empty());
    assert(spec_escape(seq![c]) == esc_char(c) + spec_escape(seq![c].drop_first()));
    assert(esc_char(c) + Seq::<char>::empty() =~= esc_char(c));
}

/// Escaped text never holds a literal `<`, `>` or `"`, and so can neither
/// open markup inside character data nor break out of a quoted attribute.
pub proof fn lemma_escape_safe(s: Seq<char>)
    ensures
        forall|i: int|
            0 <= i < spec_escape(s).len() ==> #[trigger] spec_escape(s)[i] != '<'
                && spec_escape(s)[i] != '>' && spec_escape(s)[i] != '"',
    decreases s.len(),
{
    if s.len() == 0 {
    } else {
        lemma_escape_safe(s.drop_first());
        let e = esc_char(s[0]);
        let rest = spec_escape(s.drop_first());
        assert forall|i: int| 0 <= i < spec_escape(s).len() implies #[trigger] spec_escape(s)[i]
            != '<' && spec_escape(s)[i] != '>' && spec_escape(s)[i] != '"' by {
            if i < e.len() {
                assert(spec_escape(s)[i] == e[i]);
            } else {
                assert(spec_escape(s)[i] == rest[i - e.len()]);
            }
        }
    }
}

/// Reading an escaped character off the front of an escaped text yields that
/// character and leaves the rest untouched.
proof fn lemma_unescape_cons(c: char, t: Seq<char>)
    ensures
        spec_unescape(esc_char(c) + t) == seq![c] + spec_unescape(t),
{
    let u = esc_char(c) + t;
    if c == '&' {
        assert(u.subrange(0, 5) =~= esc_char('&'));
        assert(u.skip(5) =~= t);
    } else if c == '<' {
        assert(u[1] == 'l');
        assert(u.len() >= 5 ==> u.subrange(0, 5)[1] == u[1]);
        assert(u.subrange(0, 4) =~= esc_char('<'));
        assert(u.skip(4) =~= t);
    } else if c == '>' {
        assert(u[1] == 'g');
        assert(u.len() >= 5 ==> u.subrange(0, 5)[1] == u[1]);
        assert(u.len() >= 4 ==> u.subrange(0, 4)[1] == u[1]);
        assert(u.subrange(0, 4) =~= esc_char('>'));
        assert(u.skip(4) =~= t);
    } else if c == '"' {
        assert(u[1] == 'q');
        assert(u.len() >= 5 ==> u.subrange(0, 5)[1] == u[1]);
        assert(u.len() >= 4 ==> u.subrange(0, 4)[1] == u[1]);
        assert(u.subrange(0, 6) =~= esc_char('"'));
        assert(u.skip(6) =~= t);
    } else {
        assert(u[0] == c);
        assert(u.len() >= 5 ==> u.subrange(0, 5)[0] == u[0]);
        assert(u.len() >= 4 ==> u.subrange(0, 4)[0] == u[0]);
        assert(u.len() >= 6 ==> u.subrange(0, 6)[0] == u[0]);
        assert(u.drop_first() =~= t);
    }
}

/// Escaping is lossless: reading the escaped form back yields the original
/// text, for every text.
pub proof fn lemma_escape_round_trip(s: Seq<char>)
    ensures
        spec_unescape(spec_escape(s)) == s,
    decreases s.len(),
{
    if s.len() == 0 {
    } else {
        lemma_escape_round_trip(s.drop_first());
        lemma_unescape_cons(s[0], spec_escape(s.drop_first()));
        assert(seq![s[0]] + s.drop_first() =~= s);
    }
}

/// Escapes `s` for embedding in XML character data or a quoted attribute.
pub fn escape_text(s: &str) -> (r: String)
    ensures
        r@ == spec_escape(s@),
{
    let n = s.unicode_len();
    let mut out = String::new();
    let mut start: usize = 0;
    proof {
        assert(s@.subrange(0, 0) =~= Seq::<char>::empty());
        assert(s@.take(0) =~= Seq::<char>::empty());
        assert(out@ + Seq::<char>::empty() =~= out@);
    }
    for i in 0..n
        invariant
            n == s@.len(),
            start <= i <= n,
            out@ + s@.subrange(start as int, i as int) == spec_escape(s@.take(i as int)),
    {
        let c = s.get_char(i);
        proof {
            assert(s@.take(i + 1) =~= s@.take(i as int) + seq![c]);
            lemma_escape_concat(s@.take(i as int), seq![c]);
            lemma_escape_singleton(c);
        }
        if c == '&' || c == '<' || c == '>' || c == '"' {
            let run = s.substring_char(start, i);
            out.append(run);
            if c == '&' {
                out.append("&amp;");
                proof {
                    reveal_strlit("&amp;");
                    assert("&amp;"@ =~= esc_char('&'));
                }
            } else if c == '<' {
                out.append("&lt;");
                proof {
                    reveal_strlit("&lt;");
                    assert("&lt;"@ =~= esc_char('<'));
                }
            } else if c == '>' {
                out.append("&gt;");
                proof {
                    reveal_strlit("&gt;");
                    assert("&gt;"@ =~= esc_char('>'));
                }
            } else {
                out.append("&quot;");
                proof {
                    reveal_strlit("&quot;");
                    assert("&quot;"@ =~= esc_char('"'));
                }
            }
            start = i + 1;
            proof {
                assert(s@.subrange(start as int, i + 1) =~= Seq::<char>::empty());
                assert(out@ + Seq::<char>::empty() =~= out@);
            }
        } else {
            proof {
                assert(esc_char(c) =~= seq![c]);
                assert(s@.subrange(start as int, i + 1)
                    =~= s@.subrange(start as int, i as int) + seq![c]);
                assert(out@ + (s@.subrange(start as int, i as int) + seq![c])
                    =~= (out@ + s@.subrange(start as int, i as int)) + seq![c]);
            }
        }
    }
    let tail = s.substring_char(start, n);
    out.append(tail);
    proof {
        assert(s@.take(n as int) =~= s@);
    }
    out
}

} // verus!
