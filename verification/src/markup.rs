//! Text inside markup.

use vstd::prelude::*;

use crate::text::to_chars;

verus! {

/// What stands for `c` in markup.
pub open spec fn escaped_char(c: char) -> Seq<char> {
    if c == '&' {
        "&amp;"@
    } else if c == '<' {
        "&lt;"@
    } else if c == '>' {
        "&gt;"@
    } else if c == '"' {
        "&quot;"@
    } else {
        seq![c]
    }
}

/// What stands for `s` in markup.
pub open spec fn escaped(s: Seq<char>) -> Seq<char>
    decreases s.len(),
{
    if s.len() == 0 {
        Seq::empty()
    } else {
        escaped_char(s[0]) + escaped(s.skip(1))
    }
}

/// What stands for `s` in markup: the characters that markup gives a meaning to
/// are replaced by their entities.
pub fn xml_esc(s: &str) -> (r: String)
    ensures
        r@ == escaped(s@),
{
    let chars = to_chars(s);
    let n: usize = chars.len();
    let mut r = String::new();
    assert(chars@.skip(0) =~= chars@);
    assert(r@ + escaped(s@) =~= escaped(s@));
    for i in 0..n
        invariant
            n == chars@.len(),
            chars@ == s@,
            r@ + escaped(chars@.skip(i as int)) == escaped(s@),
    {
        let c: char = chars[i];
        let ghost before = r@;
        assert(chars@.skip(i as int).skip(1) =~= chars@.skip(i + 1));
        if c == '&' {
            r.append("&amp;");
        } else if c == '<' {
            r.append("&lt;");
        } else if c == '>' {
            r.append("&gt;");
        } else if c == '"' {
            r.append("&quot;");
        } else {
            r.push(c);
        }
        assert(r@ =~= before + escaped_char(c));
        assert(r@ + escaped(chars@.skip(i + 1)) =~= before + (escaped_char(c) + escaped(
            chars@.skip(i + 1),
        )));
    }
    assert(r@ + escaped(chars@.skip(n as int)) =~= r@);
    r
}

/// `s` with a line break of markup in place of each new line.
pub open spec fn with_breaks(s: Seq<char>) -> Seq<char>
    decreases s.len(),
{
    if s.len() == 0 {
        Seq::empty()
    } else if s.last() == '\n' {
        with_breaks(s.drop_last()) + "<br>"@
    } else {
        with_breaks(s.drop_last()).push(s.last())
    }
}

/// `s` with a line break of markup in place of each new line.
pub fn break_lines(s: &str) -> (r: String)
    ensures
        r@ == with_breaks(s@),
{
    let chars = to_chars(s);
    let n: usize = chars.len();
    let mut r = String::new();
    assert(chars@.take(0) =~= Seq::empty());
    for i in 0..n
        invariant
            n == chars@.len(),
            r@ == with_breaks(chars@.take(i as int)),
    {
        assert(chars@.take(i + 1).drop_last() =~= chars@.take(i as int));
        if chars[i] == '\n' {
            r.append("<br>");
        } else {
            r.push(chars[i]);
        }
    }
    assert(chars@.take(n as int) =~= chars@);
    r
}

// ---------------------------------------------------------------------------
// Laws
// ---------------------------------------------------------------------------

/// Whether `c` opens or closes a tag or an attribute.
pub open spec fn is_delimiter(c: char) -> bool {
    c == '<' || c == '>' || c == '"'
}

proof fn lemma_escaped_char(c: char)
    ensures
        escaped_char(c).len() > 0,
        forall|i: int|
            0 <= i < escaped_char(c).len() ==> !is_delimiter(#[trigger] escaped_char(c)[i]),
        c == '&' || is_delimiter(c) ==> escaped_char(c)[0] == '&' && escaped_char(c).len() > 1,
        c == '&' ==> escaped_char(c).len() == 5 && escaped_char(c)[1] == 'a',
        c == '<' ==> escaped_char(c).len() == 4 && escaped_char(c)[1] == 'l',
        c == '>' ==> escaped_char(c).len() == 4 && escaped_char(c)[1] == 'g',
        c == '"' ==> escaped_char(c).len() == 6 && escaped_char(c)[1] == 'q',
{
    reveal_strlit("&amp;");
    reveal_strlit("&lt;");
    reveal_strlit("&gt;");
    reveal_strlit("&quot;");
}

/// Escaped text never opens or closes a tag or an attribute.
pub proof fn law_escaped_is_inert(s: Seq<char>)
    ensures
        forall|i: int| 0 <= i < escaped(s).len() ==> !is_delimiter(#[trigger] escaped(s)[i]),
    decreases s.len(),
{
    if s.len() > 0 {
        let head = escaped_char(s[0]);
        let tail = escaped(s.skip(1));
        lemma_escaped_char(s[0]);
        law_escaped_is_inert(s.skip(1));
        assert forall|i: int| 0 <= i < escaped(s).len() implies !is_delimiter(
            #[trigger] escaped(s)[i],
        ) by {
            if i < head.len() {
                assert(escaped(s)[i] == head[i]);
            } else {
                assert(escaped(s)[i] == tail[i - head.len()]);
            }
        }
    }
}

/// Text without characters that markup gives a meaning to is left as it is.
pub proof fn law_plain_text_is_kept(s: Seq<char>)
    requires
        forall|i: int| 0 <= i < s.len() ==> #[trigger] s[i] != '&' && !is_delimiter(s[i]),
    ensures
        escaped(s) == s,
    decreases s.len(),
{
    if s.len() > 0 {
        let rest = s.skip(1);
        assert forall|i: int| 0 <= i < rest.len() implies #[trigger] rest[i] != '&'
            && !is_delimiter(rest[i]) by {
            assert(rest[i] == s[i + 1]);
        }
        law_plain_text_is_kept(rest);
        assert(escaped(s) =~= s);
    }
}

/// Different texts are escaped differently: nothing is lost.
pub proof fn law_escaping_loses_nothing(a: Seq<char>, b: Seq<char>)
    requires
        escaped(a) == escaped(b),
    ensures
        a == b,
    decreases a.len(),
{
    let e = escaped(a);
    if a.len() == 0 {
        if b.len() > 0 {
            lemma_escaped_char(b[0]);
            assert(escaped(b).len() > 0);
        }
        assert(a =~= b);
    } else {
        lemma_escaped_char(a[0]);
        assert(e.len() > 0);
        assert(b.len() > 0);
        lemma_escaped_char(b[0]);
        let x = escaped_char(a[0]);
        let y = escaped_char(b[0]);
        let s = escaped(a.skip(1));
        let t = escaped(b.skip(1));
        assert(e == x + s);
        assert(e == y + t);
        assert(e[0] == x[0] && e[0] == y[0]);
        assert(x.len() > 1 ==> e[1] == x[1]);
        assert(y.len() > 1 ==> e[1] == y[1]);
        assert(a[0] == b[0]);
        assert(s =~= e.skip(x.len() as int));
        assert(t =~= e.skip(y.len() as int));
        law_escaping_loses_nothing(a.skip(1), b.skip(1));
        assert(a =~= seq![a[0]] + a.skip(1));
        assert(b =~= seq![b[0]] + b.skip(1));
    }
}

} // verus!
