//! Heuristics that tell a page which needs JavaScript from one which does not.

use crate::text;
use vstd::prelude::*;

verus! {

/// The block that is put behind the markdown of a page which seems to need JavaScript.
pub open spec fn spa_warning() -> Seq<char> {
    "\n\n<!-- SKIPJACKD_SPA_DETECTED: This page appears to require JavaScript rendering. The\n     content above may be incomplete. Consider using a JS-capable fetch tool (e.g.,\n     Playwright MCP) to retrieve the full rendered content. -->\n"@
}

/// The number of bytes of text under which a page counts as empty.
pub const MIN_BODY_TEXT: usize = 512;

/// The text with which an opening tag begins.
pub open spec fn open_tag(tag: Seq<char>) -> Seq<char> {
    "<"@ + tag
}

/// The text of a closing tag.
pub open spec fn close_tag(tag: Seq<char>) -> Seq<char> {
    "</"@ + tag + ">"@
}

/// The range from the first opening tag to the end of the closing tag behind it. ASCII
/// capital letters of the page count as small ones.
pub open spec fn tag_range(html: Seq<char>, tag: Seq<char>) -> Option<(int, int)> {
    let folded = text::ascii_lowercase(html);
    match text::find_from(folded, open_tag(tag), 0) {
        None => None,
        Some(p) => match text::find_from(folded, close_tag(tag), p) {
            None => None,
            Some(c) => Some((p, c + close_tag(tag).len())),
        },
    }
}

/// A text without its elements of one tag: the first is cut out until there is none.
pub open spec fn without_tag(html: Seq<char>, tag: Seq<char>) -> Seq<char>
    decreases html.len(),
{
    match tag_range(html, tag) {
        None => html,
        Some((p, q)) => if 0 <= p < q <= html.len() {
            without_tag(html.take(p) + html.skip(q), tag)
        } else {
            html
        },
    }
}

/// A text without its elements of the given tags, one tag after the other.
pub open spec fn stripped(html: Seq<char>, tags: Seq<Seq<char>>) -> Seq<char>
    decreases tags.len(),
{
    if tags.len() == 0 {
        html
    } else {
        without_tag(stripped(html, tags.drop_last()), tags.last())
    }
}

/// The characters of each of a list of tag names.
pub open spec fn tag_views(tags: Seq<&str>) -> Seq<Seq<char>> {
    tags.map_values(|t: &str| t@)
}

/// An element begins before it ends, and lies within the text.
proof fn lemma_tag_range(html: Seq<char>, tag: Seq<char>)
    ensures
        tag_range(html, tag) matches Some((p, q)) ==> 0 <= p < q <= html.len(),
{
    let folded = text::ascii_lowercase(html);
    reveal_strlit("</");
    reveal_strlit(">");
    text::lemma_find_from(folded, open_tag(tag), 0);
    if let Some(p) = text::find_from(folded, open_tag(tag), 0) {
        text::lemma_find_from(folded, close_tag(tag), p);
    }
}

/// Where an element of a tag is to be cut out of a text.
fn range_of_tag(cs: &Vec<char>, tag: &str) -> (r: Option<(usize, usize)>)
    ensures
        match r {
            Some((p, q)) => tag_range(cs@, tag@) == Some((p as int, q as int)) && p < q
                && q <= cs@.len(),
            None => tag_range(cs@, tag@) is None,
        },
{
    proof {
        lemma_tag_range(cs@, tag@);
    }
    let folded = text::fold_ascii(cs);
    let open = text::chars_of(text::concat("<", tag).as_str());
    let close = text::chars_of(text::concat3("</", tag, ">").as_str());
    proof {
        text::lemma_find_from(folded@, open@, 0);
        if let Some(p) = text::find_from(folded@, open@, 0) {
            text::lemma_find_from(folded@, close@, p);
        }
    }
    match text::find(&folded, &open, 0) {
        None => None,
        Some(p) => match text::find(&folded, &close, p) {
            None => None,
            Some(c) => Some((p, c + close.len())),
        },
    }
}

/// A text without the characters from `p` to `q`.
fn cut(cs: &Vec<char>, p: usize, q: usize) -> (r: Vec<char>)
    requires
        p < q <= cs@.len(),
    ensures
        r@ == cs@.take(p as int) + cs@.skip(q as int),
{
    let mut kept: Vec<char> = Vec::new();
    let mut i: usize = 0;
    while i < p
        invariant
            i <= p < cs@.len(),
            kept@ =~= cs@.take(i as int),
        decreases p - i,
    {
        kept.push(cs[i]);
        i = i + 1;
    }
    let mut k: usize = q;
    while k < cs.len()
        invariant
            p < q <= k <= cs@.len(),
            kept@ =~= cs@.take(p as int) + cs@.subrange(q as int, k as int),
        decreases cs.len() - k,
    {
        kept.push(cs[k]);
        k = k + 1;
    }
    assert(kept@ =~= cs@.take(p as int) + cs@.skip(q as int));
    kept
}

/// A text without its elements of one tag.
fn strip_tag(html: Vec<char>, tag: &str) -> (r: Vec<char>)
    ensures
        r@ == without_tag(html@, tag@),
{
    let ghost start = html@;
    let mut current = html;
    loop
        invariant
            start == html@,
            without_tag(start, tag@) == without_tag(current@, tag@),
        decreases current@.len(),
    {
        match range_of_tag(&current, tag) {
            None => {
                return current;
            },
            Some((p, q)) => {
                current = cut(&current, p, q);
            },
        }
    }
}

/// Stripping a tag leaves no element of it: no opening tag with a closing tag behind it.
pub proof fn no_element_is_left(html: Seq<char>, tag: Seq<char>)
    ensures
        tag_range(without_tag(html, tag), tag) is None,
        without_tag(html, tag).len() <= html.len(),
    decreases html.len(),
{
    lemma_tag_range(html, tag);
    if let Some((p, q)) = tag_range(html, tag) {
        no_element_is_left(html.take(p) + html.skip(q), tag);
    }
}

/// A page without an element of a tag is left as it is.
pub proof fn other_content_stays(html: Seq<char>, tag: Seq<char>)
    requires
        tag_range(html, tag) is None,
    ensures
        without_tag(html, tag) == html,
{
}

/// An element goes from its opening tag to its closing tag, in whatever case these are
/// written, and what stands around it stays, whatever characters that holds.
pub proof fn an_element_is_cut_out_whole(
    before: Seq<char>,
    opened: Seq<char>,
    inner: Seq<char>,
    closed: Seq<char>,
    after: Seq<char>,
    tag: Seq<char>,
)
    requires
        tag.len() > 0,
        tag[0] != '/',
        !tag.contains('<'),
        text::ascii_lowercase(opened) == open_tag(tag),
        text::ascii_lowercase(closed) == close_tag(tag),
        !before.contains('<'),
        !inner.contains('<'),
    ensures
        without_tag(before + opened + inner + closed + after, tag) == without_tag(
            before + after,
            tag,
        ),
{
    let html = before + opened + inner + closed + after;
    let folded = text::ascii_lowercase(html);
    let open = open_tag(tag);
    let close = close_tag(tag);
    let p = before.len() as int;
    let c = p + opened.len() + inner.len();
    reveal_strlit("<");
    reveal_strlit("</");
    reveal_strlit(">");
    assert(open.len() == opened.len() && close.len() == closed.len());
    assert(folded.subrange(p, p + open.len()) =~= open) by {
        assert forall|k: int| 0 <= k < open.len() implies folded[p + k] == open[k] by {
            assert(text::ascii_lowercase(opened)[k] == open[k]);
        }
    }
    assert(folded.subrange(c, c + close.len()) =~= close) by {
        assert forall|k: int| 0 <= k < close.len() implies folded[c + k] == close[k] by {
            assert(text::ascii_lowercase(closed)[k] == close[k]);
        }
    }
    assert forall|i: int| 0 <= i < p implies !text::occurs_at(folded, open, i) by {
        assert(before.contains(before[i]));
        if text::occurs_at(folded, open, i) {
            assert(folded.subrange(i, i + open.len())[0] == folded[i]);
        }
    }
    assert forall|i: int| p <= i < c implies !text::occurs_at(folded, close, i) by {
        if text::occurs_at(folded, close, i) {
            assert(folded.subrange(i, i + close.len())[0] == folded[i]);
            assert(folded.subrange(i, i + close.len())[1] == folded[i + 1]);
            if i < p + opened.len() {
                assert(text::ascii_lowercase(opened)[i - p] == open[i - p]);
                if i == p {
                    assert(text::ascii_lowercase(opened)[1] == open[1]);
                    assert(folded[p + 1] == tag[0]);
                } else {
                    assert(open[i - p] == tag[i - p - 1]);
                    assert(tag.contains(tag[i - p - 1]));
                }
            } else {
                let k = i - p - opened.len();
                assert(html[i] == inner[k]);
                assert(inner.contains(inner[k]));
            }
        }
    }
    text::lemma_find_from(folded, open, 0);
    text::lemma_find_from(folded, close, p);
    assert(text::occurs_at(folded, open, p));
    assert(text::occurs_at(folded, close, c));
    assert(tag_range(html, tag) == Some((p, c + close.len())));
    assert(html.take(p) + html.skip(c + close.len()) =~= before + after);
}

/// Strip all content between opening and closing tags for the given tag names.
///
/// This is a simple string-based removal; it does not handle nested tags of the
/// same name correctly, but that is acceptable for heuristic purposes.
pub fn strip_tags(html: &str, tags: &[&str]) -> (r: String)
    ensures
        r@ == stripped(html@, tag_views(tags@)),
{
    let ghost all = tag_views(tags@);
    let mut current = text::chars_of(html);
    let mut i: usize = 0;
    assert(all.take(0) =~= Seq::empty());
    while i < tags.len()
        invariant
            i <= tags@.len(),
            all == tag_views(tags@),
            current@ == stripped(html@, all.take(i as int)),
        decreases tags.len() - i,
    {
        proof {
            assert(all.take(i + 1).drop_last() =~= all.take(i as int));
            assert(all.take(i + 1).last() == tags@[i as int]@);
        }
        current = strip_tag(current, tags[i]);
        i = i + 1;
    }
    assert(all.take(all.len() as int) =~= all);
    assert(current@.subrange(0, current@.len() as int) =~= current@);
    text::string_of(&current, 0, current.len())
}

/// Whether HTML in lowercase contains any semantic content elements.
pub open spec fn semantic(html_lower: Seq<char>) -> bool {
    ||| text::has_substring(html_lower, "<p "@)
    ||| text::has_substring(html_lower, "<p>"@)
    ||| text::has_substring(html_lower, "<h1"@)
    ||| text::has_substring(html_lower, "<h2"@)
    ||| text::has_substring(html_lower, "<h3"@)
    ||| text::has_substring(html_lower, "<h4"@)
    ||| text::has_substring(html_lower, "<h5"@)
    ||| text::has_substring(html_lower, "<h6"@)
    ||| text::has_substring(html_lower, "<article"@)
    ||| text::has_substring(html_lower, "<main"@)
    ||| text::has_substring(html_lower, "<section"@)
}

/// Check if the stripped HTML contains any semantic content elements.
pub fn has_semantic_elements(html_lower: &str) -> (r: bool)
    ensures
        r == semantic(html_lower@),
{
    text::contains_str(html_lower, "<p ") || text::contains_str(html_lower, "<p>")
        || text::contains_str(html_lower, "<h1") || text::contains_str(html_lower, "<h2")
        || text::contains_str(html_lower, "<h3") || text::contains_str(html_lower, "<h4")
        || text::contains_str(html_lower, "<h5") || text::contains_str(html_lower, "<h6")
        || text::contains_str(html_lower, "<article") || text::contains_str(html_lower, "<main")
        || text::contains_str(html_lower, "<section")
}

/// Whether HTML in lowercase contains known root container elements of JavaScript
/// applications.
pub open spec fn spa_root(html_lower: Seq<char>) -> bool {
    ||| text::has_substring(html_lower, "<div id=\"root\""@)
    ||| text::has_substring(html_lower, "<div id='root'"@)
    ||| text::has_substring(html_lower, "<div id=\"app\""@)
    ||| text::has_substring(html_lower, "<div id='app'"@)
    ||| text::has_substring(html_lower, "<div id=\"__next\""@)
    ||| text::has_substring(html_lower, "<div id='__next'"@)
    ||| text::has_substring(html_lower, "<div id=\"__nuxt\""@)
    ||| text::has_substring(html_lower, "<div id='__nuxt'"@)
}

/// Check if the HTML contains known SPA root container elements.
pub fn contains_spa_root(html_lower: &str) -> (r: bool)
    ensures
        r == spa_root(html_lower@),
{
    text::contains_str(html_lower, "<div id=\"root\"") || text::contains_str(
        html_lower,
        "<div id='root'",
    ) || text::contains_str(html_lower, "<div id=\"app\"") || text::contains_str(
        html_lower,
        "<div id='app'",
    ) || text::contains_str(html_lower, "<div id=\"__next\"") || text::contains_str(
        html_lower,
        "<div id='__next'",
    ) || text::contains_str(html_lower, "<div id=\"__nuxt\"") || text::contains_str(
        html_lower,
        "<div id='__nuxt'",
    )
}

/// The tags whose elements hold no text of the page.
pub open spec fn noise_tags() -> Seq<Seq<char>> {
    seq!["script"@, "style"@, "noscript"@]
}

/// Whether a page seems to need JavaScript, given what is left of it without scripts and
/// styles, the lowercase form of that, and the lowercase form of the whole.
pub open spec fn is_spa(rest: Seq<char>, rest_lower: Seq<char>, html_lower: Seq<char>) -> bool {
    ||| vstd::utf8::encode_utf8(text::trimmed(rest)).len() < MIN_BODY_TEXT
    ||| !semantic(rest_lower)
    ||| spa_root(html_lower)
}

/// Whether a page seems to need JavaScript, given what is left of it without scripts and
/// styles, the lowercase form of that, and the lowercase form of the whole: there is
/// less than 512 bytes of text, no semantic element, or a known root element.
pub fn needs_javascript(rest: &str, rest_lower: &str, html_lower: &str) -> (r: bool)
    ensures
        r == is_spa(rest@, rest_lower@, html_lower@),
{
    let trimmed = text::trim(rest);
    trimmed.as_str().as_bytes().len() < MIN_BODY_TEXT || !has_semantic_elements(rest_lower)
        || contains_spa_root(html_lower)
}

/// Whether a page seems to need JavaScript.
pub open spec fn page_is_spa(html: Seq<char>) -> bool {
    let rest = stripped(html, noise_tags());
    is_spa(rest, text::lowercase(rest), text::lowercase(html))
}

/// Run SPA detection heuristics on the raw HTML.
///
/// Returns `(is_spa, warning_markdown)` where `warning_markdown` is the
/// machine-readable warning block to append if SPA is detected.
pub fn detect_spa(html: &str) -> (r: (bool, String))
    ensures
        r.0 == page_is_spa(html@),
        ({
            let rest = stripped(html@, noise_tags());
            text::is_ascii(html@) && text::is_ascii(rest) ==> r.0 == is_spa(
                rest,
                text::ascii_lowercase(rest),
                text::ascii_lowercase(html@),
            )
        }),
        r.1@ == (if r.0 {
            spa_warning()
        } else {
            Seq::empty()
        }),
{
    let tags: [&str; 3] = ["script", "style", "noscript"];
    assert(tag_views(tags@) =~= noise_tags());
    let rest = strip_tags(html, tags.as_slice());
    let rest_lower = text::to_lowercase(rest.as_str());
    let html_lower = text::to_lowercase(html);
    if needs_javascript(rest.as_str(), rest_lower.as_str(), html_lower.as_str()) {
        (
            true,
            "\n\n<!-- SKIPJACKD_SPA_DETECTED: This page appears to require JavaScript rendering. The\n     content above may be incomplete. Consider using a JS-capable fetch tool (e.g.,\n     Playwright MCP) to retrieve the full rendered content. -->\n".to_owned(),
        )
    } else {
        (false, String::new())
    }
}

/// What is looked at is the page without its scripts, styles and fallbacks, in that order.
pub proof fn scripts_and_styles_are_noise(html: Seq<char>)
    ensures
        stripped(html, noise_tags()) == without_tag(
            without_tag(without_tag(html, "script"@), "style"@),
            "noscript"@,
        ),
{
    let tags = noise_tags();
    assert(tags.drop_last() =~= seq!["script"@, "style"@]);
    assert(tags.drop_last().drop_last() =~= seq!["script"@]);
    assert(tags.drop_last().drop_last().drop_last() =~= Seq::empty());
    reveal_with_fuel(stripped, 4);
}

/// A page needs no JavaScript exactly where there are 512 bytes or more in what is left of it, one
/// of the semantic elements is among it, and none of the known root elements is in the page.
pub proof fn pages_with_content_need_no_javascript(
    rest: Seq<char>,
    rest_lower: Seq<char>,
    html_lower: Seq<char>,
)
    ensures
        !is_spa(rest, rest_lower, html_lower) <==> {
            &&& vstd::utf8::encode_utf8(text::trimmed(rest)).len() >= 512
            &&& {
                ||| text::has_substring(rest_lower, "<p "@)
                ||| text::has_substring(rest_lower, "<p>"@)
                ||| text::has_substring(rest_lower, "<h1"@)
                ||| text::has_substring(rest_lower, "<h2"@)
                ||| text::has_substring(rest_lower, "<h3"@)
                ||| text::has_substring(rest_lower, "<h4"@)
                ||| text::has_substring(rest_lower, "<h5"@)
                ||| text::has_substring(rest_lower, "<h6"@)
                ||| text::has_substring(rest_lower, "<article"@)
                ||| text::has_substring(rest_lower, "<main"@)
                ||| text::has_substring(rest_lower, "<section"@)
            }
            &&& !text::has_substring(html_lower, "<div id=\"root\""@)
            &&& !text::has_substring(html_lower, "<div id='root'"@)
            &&& !text::has_substring(html_lower, "<div id=\"app\""@)
            &&& !text::has_substring(html_lower, "<div id='app'"@)
            &&& !text::has_substring(html_lower, "<div id=\"__next\""@)
            &&& !text::has_substring(html_lower, "<div id='__next'"@)
            &&& !text::has_substring(html_lower, "<div id=\"__nuxt\""@)
            &&& !text::has_substring(html_lower, "<div id='__nuxt'"@)
        },
{
}

/// What is judged of a page is what is left of it, and the whole of it, both in lowercase.
pub proof fn pages_are_judged_in_lowercase(html: Seq<char>)
    ensures
        page_is_spa(html) == is_spa(
            without_tag(without_tag(without_tag(html, "script"@), "style"@), "noscript"@),
            text::lowercase(
                without_tag(without_tag(without_tag(html, "script"@), "style"@), "noscript"@),
            ),
            text::lowercase(html),
        ),
{
    scripts_and_styles_are_noise(html);
}

/// An element is cut out only where its opening tag stands with its closing tag behind it; a
/// page without the letters of the opening tag is left as it is.
pub proof fn pages_without_the_tag_stay(html: Seq<char>, tag: Seq<char>)
    requires
        !text::has_substring(text::ascii_lowercase(html), "<"@ + tag),
    ensures
        without_tag(html, tag) == html,
{
    text::lemma_find_from(text::ascii_lowercase(html), open_tag(tag), 0);
}

} // verus!
