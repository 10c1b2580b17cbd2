//! Text for the gradient headings: file-name slugs, escaping for SVG
//! markup, and the gradient's stops.

use vstd::prelude::*;
use crate::number::{nat_text, u32_text};
use crate::text::{chars_of, string_of};

verus! {

/// An ASCII letter or digit.
pub open spec fn is_ascii_alphanumeric(c: char) -> bool {
    ('a' <= c && c <= 'z') || ('A' <= c && c <= 'Z') || ('0' <= c && c <= '9')
}

/// `c` in lower case if it is an ASCII capital, else `c` itself.
pub open spec fn ascii_lower(c: char) -> char {
    if 'A' <= c && c <= 'Z' {
        ((c as u32 + 32) as u8) as char
    } else {
        c
    }
}

/// The slug of one character: letters and digits in lower case, anything
/// else a `-`.
pub open spec fn slug_char(c: char) -> char {
    if is_ascii_alphanumeric(c) {
        ascii_lower(c)
    } else {
        '-'
    }
}

/// The slug of a text, character by character.
pub open spec fn slug(s: Seq<char>) -> Seq<char> {
    s.map_values(|c: char| slug_char(c))
}

/// The slug of one character.
fn slug_of_char(c: char) -> (r: char)
    ensures
        r == slug_char(c),
{
    if ('a' <= c && c <= 'z') || ('0' <= c && c <= '9') {
        c
    } else if 'A' <= c && c <= 'Z' {
        ((c as u32 + 32) as u8) as char
    } else {
        '-'
    }
}

/// The slug of `text`: ASCII letters and digits in lower case, every other
/// character a `-`.
pub fn slugify(text: &str) -> (r: String)
    ensures
        r@ == slug(text@),
{
    let cs = chars_of(text);
    let mut out: Vec<char> = Vec::new();
    let mut i: usize = 0;
    while i < cs.len()
        invariant
            i <= cs.len(),
            out@ == slug(cs@.take(i as int)),
        decreases cs.len() - i,
    {
        out.push(slug_of_char(cs[i]));
        i += 1;
        assert(out@ =~= slug(cs@.take(i as int)));
    }
    assert(cs@.take(cs.len() as int) =~= cs@);
    string_of(out.as_slice())
}

/// A slug is its own slug.
pub proof fn law_slug_idempotent(s: Seq<char>)
    ensures
        slug(slug(s)) == slug(s),
{
    assert forall|i: int| 0 <= i < s.len() implies slug_char(slug_char(s[i])) == slug_char(s[i]) by {
        let c = s[i];
        if 'A' <= c && c <= 'Z' {
            let l = ((c as u32 + 32) as u8) as char;
            assert((l as u32) == (c as u32) + 32);
        }
    }
    assert(slug(slug(s)) =~= slug(s));
}

/// How one character is written in SVG text: `&`, `<` and `>` as entities,
/// anything else as it is.
pub open spec fn markup_char(c: char) -> Seq<char> {
    if c == '&' {
        "&amp;"@
    } else if c == '<' {
        "&lt;"@
    } else if c == '>' {
        "&gt;"@
    } else {
        seq![c]
    }
}

/// A text written for SVG markup, character by character.
pub open spec fn markup_escaped(s: Seq<char>) -> Seq<char>
    decreases s.len(),
{
    if s.len() == 0 {
        Seq::empty()
    } else {
        markup_escaped(s.drop_last()) + markup_char(s.last())
    }
}

/// `text` written for SVG markup (see [`markup_escaped`]).
pub fn escape_markup(text: &str) -> (r: String)
    ensures
        r@ == markup_escaped(text@),
{
    let cs = chars_of(text);
    let mut out = String::new();
    let mut i: usize = 0;
    while i < cs.len()
        invariant
            i <= cs.len(),
            out@ == markup_escaped(cs@.take(i as int)),
        decreases cs.len() - i,
    {
        let c = cs[i];
        assert(cs@.take(i + 1).drop_last() =~= cs@.take(i as int));
        if c == '&' {
            out.append("&amp;");
        } else if c == '<' {
            out.append("&lt;");
        } else if c == '>' {
            out.append("&gt;");
        } else {
            let one = vec![c];
            let s = string_of(one.as_slice());
            assert(one@ =~= seq![c]);
            out.append(s.as_str());
        }
        i += 1;
    }
    assert(cs@.take(cs.len() as int) =~= cs@);
    out
}

/// Escaped text holds no `<` or `>`, so it cannot open or close an SVG
/// element.
pub proof fn law_escaped_has_no_angle_brackets(s: Seq<char>)
    ensures
        forall|i: int|
            0 <= i < markup_escaped(s).len() ==> #[trigger] markup_escaped(s)[i] != '<'
                && markup_escaped(s)[i] != '>',
    decreases s.len(),
{
    reveal_strlit("&amp;");
    reveal_strlit("&lt;");
    reveal_strlit("&gt;");
    if s.len() > 0 {
        law_escaped_has_no_angle_brackets(s.drop_last());
        let a = markup_escaped(s.drop_last());
        let b = markup_char(s.last());
        assert forall|i: int| 0 <= i < b.len() implies b[i] != '<' && b[i] != '>' by {}
        assert forall|i: int| 0 <= i < (a + b).len() implies (a + b)[i] != '<' && (a + b)[i] != '>' by {
            if i < a.len() {
                assert((a + b)[i] == a[i]);
            } else {
                assert((a + b)[i] == b[i - a.len()]);
            }
        }
    }
}

/// One gradient stop element.
pub open spec fn stop_markup(offset: Seq<char>, color: Seq<char>) -> Seq<char> {
    "<stop offset=\""@ + offset + "\" stop-color=\""@ + color + "\"/>"@
}

/// The stop elements of a gradient, in order.
pub open spec fn stops_markup(stops: Seq<(Seq<char>, Seq<char>)>) -> Seq<char>
    decreases stops.len(),
{
    if stops.len() == 0 {
        Seq::empty()
    } else {
        stops_markup(stops.drop_last()) + stop_markup(stops.last().0, stops.last().1)
    }
}

/// The stop elements of a gradient (see [`stops_markup`]).
pub fn gradient_stops(stops: &Vec<(String, String)>) -> (r: String)
    ensures
        r@ == stops_markup(stops@.map_values(|p: (String, String)| (p.0@, p.1@))),
{
    let ghost views = stops@.map_values(|p: (String, String)| (p.0@, p.1@));
    let mut out = String::new();
    let mut i: usize = 0;
    while i < stops.len()
        invariant
            i <= stops.len(),
            views == stops@.map_values(|p: (String, String)| (p.0@, p.1@)),
            out@ == stops_markup(views.take(i as int)),
        decreases stops.len() - i,
    {
        assert(views.take(i + 1).drop_last() =~= views.take(i as int));
        out.append("<stop offset=\"");
        out.append(stops[i].0.as_str());
        out.append("\" stop-color=\"");
        out.append(stops[i].1.as_str());
        out.append("\"/>");
        i += 1;
    }
    assert(views.take(stops.len() as int) =~= views);
    out
}

/// The green-to-yellow gradient of the section headings.
pub fn green_yellow_stops() -> (r: Vec<(String, String)>)
    ensures
        r@.len() == 3,
        r@[0].0@ == "0%"@ && r@[0].1@ == "#fff066"@,
        r@[1].0@ == "55%"@ && r@[1].1@ == "#9be23f"@,
        r@[2].0@ == "100%"@ && r@[2].1@ == "#2fae4a"@,
{
    let mut r: Vec<(String, String)> = Vec::new();
    r.push((String::from_str("0%"), String::from_str("#fff066")));
    r.push((String::from_str("55%"), String::from_str("#9be23f")));
    r.push((String::from_str("100%"), String::from_str("#2fae4a")));
    r
}

/// The cache file name of a heading: the slug of its text, its font size,
/// and `.svg`.
pub open spec fn heading_file_name_spec(text: Seq<char>, font_size: nat) -> Seq<char> {
    slug(text) + "-"@ + nat_text(font_size) + ".svg"@
}

/// The cache file name of a heading (see [`heading_file_name_spec`]).
pub fn heading_file_name(text: &str, font_size: u32) -> (r: String)
    ensures
        r@ == heading_file_name_spec(text@, font_size as nat),
{
    let mut r = slugify(text);
    r.append("-");
    let size = u32_text(font_size);
    r.append(size.as_str());
    r.append(".svg");
    r
}

} // verus!
