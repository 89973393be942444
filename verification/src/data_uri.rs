//! Data URIs for SVG images: the markup of an image, escaped so that it can
//! stand in a URI, behind the media type.

use vstd::prelude::*;

verus! {

/// `text` with every occurrence of `from` replaced by `to`. Occurrences are
/// found from left to right and do not overlap; an empty `from` occurs
/// nowhere.
pub open spec fn replaced(text: Seq<char>, from: Seq<char>, to: Seq<char>) -> Seq<char>
    decreases text.len(),
{
    if from.len() == 0 || text.len() < from.len() {
        text
    } else if text.take(from.len() as int) == from {
        to + replaced(text.skip(from.len() as int), from, to)
    } else {
        seq![text[0]] + replaced(text.skip(1), from, to)
    }
}

/// The markup of an SVG image, escaped for a data URI. The steps apply in
/// this order, each to the result of the one before: percent signs are
/// escaped first, so that the escapes added later stay as they are; spaces
/// between elements and before a closing brace are dropped; double quotes
/// become single ones; and the characters that cannot stand in a URI are
/// percent-encoded.
pub open spec fn svg_escaped(svg: Seq<char>) -> Seq<char> {
    let s = replaced(svg, "%"@, "%25"@);
    let s = replaced(s, "> <"@, "><"@);
    let s = replaced(s, "; }"@, ";}"@);
    let s = replaced(s, "<"@, "%3c"@);
    let s = replaced(s, ">"@, "%3e"@);
    let s = replaced(s, "\""@, "'"@);
    let s = replaced(s, "#"@, "%23"@);
    let s = replaced(s, "{"@, "%7b"@);
    let s = replaced(s, "}"@, "%7d"@);
    let s = replaced(s, "|"@, "%7c"@);
    let s = replaced(s, "^"@, "%5e"@);
    let s = replaced(s, "`"@, "%60"@);
    replaced(s, "@"@, "%40"@)
}

/// The data URI of an SVG image: the media type, then the escaped markup.
pub open spec fn svg_data_uri_of(svg: Seq<char>) -> Seq<char> {
    "data:image/svg+xml;charset=UTF-8,"@ + svg_escaped(svg)
}

/// The characters that the escaping leaves none of: those that cannot stand
/// in a URI as they are, and the double quote.
pub open spec fn is_reserved(c: char) -> bool {
    c == '<' || c == '>' || c == '"' || c == '#' || c == '{' || c == '}' || c == '|' || c == '^'
        || c == '`' || c == '@'
}

/// `text` holds no `c`.
pub open spec fn free_of(text: Seq<char>, c: char) -> bool {
    forall|i: int| 0 <= i < text.len() ==> #[trigger] text[i] != c
}

/// Replacing brings no `c` into a text that holds none, and takes every `c`
/// out of a text where `c` itself is what is replaced, as long as the
/// replacement holds none.
pub proof fn lemma_replaced_free_of(text: Seq<char>, from: Seq<char>, to: Seq<char>, c: char)
    requires
        free_of(to, c),
        free_of(text, c) || from == seq![c],
    ensures
        free_of(replaced(text, from, to), c),
    decreases text.len(),
{
    if from.len() == 0 || text.len() < from.len() {
    } else if text.take(from.len() as int) == from {
        let rest = text.skip(from.len() as int);
        assert forall|i: int| 0 <= i < rest.len() implies text[i + from.len()] == rest[i] by {}
        lemma_replaced_free_of(rest, from, to, c);
    } else {
        let rest = text.skip(1);
        assert forall|i: int| 0 <= i < rest.len() implies text[i + 1] == rest[i] by {}
        if from == seq![c] && text[0] == c {
            assert(text.take(1) =~= seq![c]);
        }
        lemma_replaced_free_of(rest, from, to, c);
    }
}

/// The escaped markup holds no reserved character.
pub proof fn lemma_escaped_is_clean(svg: Seq<char>)
    ensures
        forall|i: int|
            0 <= i < svg_escaped(svg).len() ==> !is_reserved(#[trigger] svg_escaped(svg)[i]),
{
    reveal_strlit("<");
    reveal_strlit(">");
    reveal_strlit("\"");
    reveal_strlit("#");
    reveal_strlit("{");
    reveal_strlit("}");
    reveal_strlit("|");
    reveal_strlit("^");
    reveal_strlit("`");
    reveal_strlit("@");
    reveal_strlit("%3c");
    reveal_strlit("%3e");
    reveal_strlit("'");
    reveal_strlit("%23");
    reveal_strlit("%7b");
    reveal_strlit("%7d");
    reveal_strlit("%7c");
    reveal_strlit("%5e");
    reveal_strlit("%60");
    reveal_strlit("%40");
    let s3 = replaced(replaced(replaced(svg, "%"@, "%25"@), "> <"@, "><"@), "; }"@, ";}"@);
    let s4 = replaced(s3, "<"@, "%3c"@);
    let s5 = replaced(s4, ">"@, "%3e"@);
    let s6 = replaced(s5, "\""@, "'"@);
    let s7 = replaced(s6, "#"@, "%23"@);
    let s8 = replaced(s7, "{"@, "%7b"@);
    let s9 = replaced(s8, "}"@, "%7d"@);
    let s10 = replaced(s9, "|"@, "%7c"@);
    let s11 = replaced(s10, "^"@, "%5e"@);
    let s12 = replaced(s11, "`"@, "%60"@);
    let s13 = replaced(s12, "@"@, "%40"@);
    assert("<"@ =~= seq!['<'] && ">"@ =~= seq!['>'] && "\""@ =~= seq!['"'] && "#"@ =~= seq!['#']
        && "{"@ =~= seq!['{']);
    assert("}"@ =~= seq!['}'] && "|"@ =~= seq!['|'] && "^"@ =~= seq!['^'] && "`"@ =~= seq!['`']
        && "@"@ =~= seq!['@']);
    assert forall|c: char| is_reserved(c) implies free_of("%3c"@, c) && free_of("%3e"@, c)
        && free_of("'"@, c) && free_of("%23"@, c) && free_of("%7b"@, c) && free_of("%7d"@, c)
        && free_of("%7c"@, c) && free_of("%5e"@, c) && free_of("%60"@, c) && free_of(
        "%40"@,
        c,
    ) by {}
    assert forall|c: char| is_reserved(c) implies free_of(s13, c) by {
        lemma_replaced_free_of(s3, "<"@, "%3c"@, '<');
        if free_of(s4, c) || c == '>' {
            lemma_replaced_free_of(s4, ">"@, "%3e"@, c);
        }
        if free_of(s5, c) || c == '"' {
            lemma_replaced_free_of(s5, "\""@, "'"@, c);
        }
        if free_of(s6, c) || c == '#' {
            lemma_replaced_free_of(s6, "#"@, "%23"@, c);
        }
        if free_of(s7, c) || c == '{' {
            lemma_replaced_free_of(s7, "{"@, "%7b"@, c);
        }
        if free_of(s8, c) || c == '}' {
            lemma_replaced_free_of(s8, "}"@, "%7d"@, c);
        }
        if free_of(s9, c) || c == '|' {
            lemma_replaced_free_of(s9, "|"@, "%7c"@, c);
        }
        if free_of(s10, c) || c == '^' {
            lemma_replaced_free_of(s10, "^"@, "%5e"@, c);
        }
        if free_of(s11, c) || c == '`' {
            lemma_replaced_free_of(s11, "`"@, "%60"@, c);
        }
        if free_of(s12, c) || c == '@' {
            lemma_replaced_free_of(s12, "@"@, "%40"@, c);
        }
    }
    assert(s13 == svg_escaped(svg));
}

/// Calls `String::push`, which appends one character to the text.
#[verifier::external_body]
fn push_char(text: &mut String, c: char)
    ensures
        final(text)@ == old(text)@.push(c),
{
    text.push(c)
}

/// The characters of a text.
pub fn chars_of(text: &str) -> (chars: Vec<char>)
    ensures
        chars@ == text@,
{
    let mut chars: Vec<char> = Vec::new();
    for c in it: text.chars()
        invariant
            chars@ == it.seq().take(it.index() as int),
    {
        chars.push(c);
    }
    chars
}

/// Appends `chars` to `text`.
fn append_chars(text: &mut String, chars: &Vec<char>)
    ensures
        final(text)@ == old(text)@ + chars@,
{
    let mut i: usize = 0;
    while i < chars.len()
        invariant
            i <= chars.len(),
            text@ == old(text)@ + chars@.take(i as int),
        decreases chars.len() - i,
    {
        push_char(text, chars[i]);
        assert(chars@.take(i + 1) =~= chars@.take(i as int).push(chars@[i as int]));
        i += 1;
    }
    assert(chars@.take(i as int) =~= chars@);
}

/// Whether `from` stands in `text` at position `at`.
fn occurs_at(text: &Vec<char>, at: usize, from: &Vec<char>) -> (r: bool)
    requires
        at <= text.len(),
    ensures
        r == (from.len() <= text.len() - at && text@.skip(at as int).take(from.len() as int)
            == from@),
{
    if text.len() - at < from.len() {
        return false;
    }
    let mut j: usize = 0;
    while j < from.len()
        invariant
            j <= from.len(),
            at + from.len() <= text.len(),
            forall|k: int| 0 <= k < j ==> text@[at + k] == from@[k],
        decreases from.len() - j,
    {
        if text[at + j] != from[j] {
            assert(text@.skip(at as int).take(from.len() as int)[j as int] != from@[j as int]);
            return false;
        }
        j += 1;
    }
    assert(text@.skip(at as int).take(from.len() as int) =~= from@);
    true
}

/// Replaces every occurrence of `from` in `text` by `to`.
pub fn replace(text: &Vec<char>, from: &str, to: &str) -> (r: Vec<char>)
    ensures
        r@ == replaced(text@, from@, to@),
{
    let from = chars_of(from);
    let to = chars_of(to);
    let mut r: Vec<char> = Vec::new();
    if from.len() == 0 {
        let mut i: usize = 0;
        while i < text.len()
            invariant
                i <= text.len(),
                r@ == text@.take(i as int),
            decreases text.len() - i,
        {
            r.push(text[i]);
            assert(text@.take(i + 1) =~= text@.take(i as int).push(text@[i as int]));
            i += 1;
        }
        assert(text@.take(i as int) =~= text@);
        return r;
    }
    let mut i: usize = 0;
    assert(text@.skip(0) =~= text@);
    while i < text.len()
        invariant
            i <= text.len(),
            from.len() > 0,
            replaced(text@, from@, to@) == r@ + replaced(text@.skip(i as int), from@, to@),
        decreases text.len() - i,
    {
        let ghost rest = text@.skip(i as int);
        if occurs_at(text, i, &from) {
            let mut j: usize = 0;
            let ghost done = r@;
            while j < to.len()
                invariant
                    j <= to.len(),
                    r@ == done + to@.take(j as int),
                decreases to.len() - j,
            {
                r.push(to[j]);
                assert(to@.take(j + 1) =~= to@.take(j as int).push(to@[j as int]));
                j += 1;
            }
            assert(to@.take(j as int) =~= to@);
            assert(rest.skip(from.len() as int) =~= text@.skip(i + from.len()));
            assert(r@ + replaced(text@.skip(i + from.len()), from@, to@) =~= done + replaced(
                rest,
                from@,
                to@,
            ));
            i += from.len();
        } else {
            let ghost done = r@;
            r.push(text[i]);
            assert(rest.skip(1) =~= text@.skip(i + 1));
            proof {
                if rest.len() < from@.len() {
                    assert(replaced(rest.skip(1), from@, to@) == rest.skip(1));
                    assert(rest =~= seq![rest[0]] + rest.skip(1));
                }
            }
            assert(r@ + replaced(text@.skip(i + 1), from@, to@) =~= done + replaced(
                rest,
                from@,
                to@,
            ));
            i += 1;
        }
    }
    assert(text@.skip(i as int) =~= Seq::<char>::empty());
    assert(r@ + Seq::<char>::empty() =~= r@);
    r
}

/// The data URI of the SVG image with the markup `svg`.
pub fn svg_data_uri(svg: String) -> (uri: String)
    ensures
        uri@ == svg_data_uri_of(svg@),
{
    let text = chars_of(svg.as_str());
    let text = replace(&text, "%", "%25");
    let text = replace(&text, "> <", "><");
    let text = replace(&text, "; }", ";}");
    let text = replace(&text, "<", "%3c");
    let text = replace(&text, ">", "%3e");
    let text = replace(&text, "\"", "'");
    let text = replace(&text, "#", "%23");
    let text = replace(&text, "{", "%7b");
    let text = replace(&text, "}", "%7d");
    let text = replace(&text, "|", "%7c");
    let text = replace(&text, "^", "%5e");
    let text = replace(&text, "`", "%60");
    let text = replace(&text, "@", "%40");
    let mut uri = "data:image/svg+xml;charset=UTF-8,".to_owned();
    append_chars(&mut uri, &text);
    uri
}

} // verus!
