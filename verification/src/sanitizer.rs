//! Allow-list markup sanitization.
//!
//! Text is parsed as markup and rebuilt from what the policy permits: elements,
//! attributes and URL schemes that it does not name are removed, and plain text
//! is escaped. Parsing and rebuilding are done by the `ammonia` crate; this
//! module fixes the policy and prepares the text.

use crate::text::{
    chars_of, contains, lemma_replace_absent, lemma_replace_leaves_none, replace_all,
    replace_chars, string_of, trim, trim_chars,
};
use vstd::prelude::*;

verus! {

/// The attributes that one element may carry beyond the generic ones.
pub struct ElementAttributes {
    element: String,
    attributes: Vec<String>,
}

/// What markup may stay in sanitized text.
pub struct AllowListPolicy {
    elements: Vec<String>,
    generic_attributes: Vec<String>,
    element_attributes: Vec<ElementAttributes>,
    url_schemes: Vec<String>,
    link_rel: Option<String>,
}

/// The set of the strings in `names`.
pub open spec fn name_set(names: Seq<String>) -> Set<Seq<char>> {
    Set::new(|name: Seq<char>| exists|i: int| 0 <= i < names.len() && (#[trigger] names[i])@ == name)
}

impl ElementAttributes {
    /// The element's name.
    pub closed spec fn element(&self) -> Seq<char> {
        self.element@
    }

    /// The attribute names.
    pub closed spec fn attributes(&self) -> Set<Seq<char>> {
        name_set(self.attributes@)
    }
}

impl AllowListPolicy {
    /// The names of the permitted elements.
    pub closed spec fn elements(&self) -> Set<Seq<char>> {
        name_set(self.elements@)
    }

    /// The names of the attributes permitted on every element.
    pub closed spec fn generic_attributes(&self) -> Set<Seq<char>> {
        name_set(self.generic_attributes@)
    }

    /// The entries for attributes permitted on single elements.
    pub closed spec fn entries(&self) -> Seq<ElementAttributes> {
        self.element_attributes@
    }

    /// The attributes permitted on single elements, by element name.
    pub open spec fn element_attributes(&self) -> Map<Seq<char>, Set<Seq<char>>> {
        Map::new(
            |element: Seq<char>|
                exists|i: int|
                    0 <= i < self.entries().len() && (#[trigger] self.entries()[i]).element()
                        == element,
            |element: Seq<char>|
                {
                    let i = choose|i: int|
                        0 <= i < self.entries().len() && (#[trigger] self.entries()[i]).element()
                            == element;
                    self.entries()[i].attributes()
                },
        )
    }

    /// The URL schemes permitted in link targets.
    pub closed spec fn url_schemes(&self) -> Set<Seq<char>> {
        name_set(self.url_schemes@)
    }

    /// The `rel` value set on every anchor, if any.
    pub closed spec fn link_rel(&self) -> Option<Seq<char>> {
        match self.link_rel {
            Some(rel) => Some(rel@),
            None => None,
        }
    }

    /// The policy does not contradict itself:
    /// - no element has two entries for its attributes;
    /// - `script` and `style`, whose content is always dropped, are neither
    ///   permitted nor given attributes;
    /// - where a `rel` value is set on anchors, `rel` is not an attribute that
    ///   the text may set itself.
    pub open spec fn consistent(&self) -> bool {
        &&& forall|i: int, j: int|
            0 <= i < j < self.entries().len() ==> (#[trigger] self.entries()[i]).element() != (
            #[trigger] self.entries()[j]).element()
        &&& !self.elements().contains(seq!['s', 'c', 'r', 'i', 'p', 't'])
        &&& !self.elements().contains(seq!['s', 't', 'y', 'l', 'e'])
        &&& !self.element_attributes().dom().contains(seq!['s', 'c', 'r', 'i', 'p', 't'])
        &&& !self.element_attributes().dom().contains(seq!['s', 't', 'y', 'l', 'e'])
        &&& self.link_rel() is Some ==> {
            &&& !self.generic_attributes().contains(seq!['r', 'e', 'l'])
            &&& self.element_attributes().dom().contains(seq!['a'])
                ==> !self.element_attributes()[seq!['a']].contains(seq!['r', 'e', 'l'])
        }
    }
}

/// What `ammonia` makes of `markup` under a policy: the markup parsed as an
/// HTML fragment, cleaned, and written out again.
pub uninterp spec fn cleaned_markup(
    elements: Set<Seq<char>>,
    generic_attributes: Set<Seq<char>>,
    element_attributes: Map<Seq<char>, Set<Seq<char>>>,
    url_schemes: Set<Seq<char>>,
    link_rel: Option<Seq<char>>,
    markup: Seq<char>,
) -> Seq<char>;

/// Calls `ammonia::Builder::clean` on a builder that starts from
/// `ammonia::Builder::default()` and takes its tags, generic attributes, tag
/// attributes, URL schemes and link `rel` from `policy`, and writes the cleaned
/// document out as a string.
///
/// Trusted: that the result is a function of these settings and the markup.
/// `clean` panics on a builder whose settings contradict each other; a
/// consistent policy gives none of those.
#[verifier::external_body]
fn clean_markup(policy: &AllowListPolicy, markup: &str) -> (cleaned: String)
    requires
        policy.consistent(),
    ensures
        cleaned@ == cleaned_markup(
            policy.elements(),
            policy.generic_attributes(),
            policy.element_attributes(),
            policy.url_schemes(),
            policy.link_rel(),
            markup@,
        ),
{
    let mut builder = ammonia::Builder::default();
    builder
        .tags(policy.elements.iter().map(String::as_str).collect())
        .generic_attributes(policy.generic_attributes.iter().map(String::as_str).collect())
        .tag_attributes(policy.element_attributes.iter().map(|entry| (
            entry.element.as_str(),
            entry.attributes.iter().map(String::as_str).collect(),
        )).collect())
        .url_schemes(policy.url_schemes.iter().map(String::as_str).collect())
        .link_rel(policy.link_rel.as_deref());
    builder.clean(markup).to_string()
}

/// The elements that sanitized text may hold.
pub open spec fn standard_elements() -> Set<Seq<char>> {
    set![
        "a"@, "b"@, "strong"@, "i"@, "em"@, "code"@, "pre"@, "p"@, "br"@, "ul"@, "ol"@, "li"@,
        "blockquote"@,
    ]
}

/// The attributes that any permitted element may carry.
pub open spec fn standard_generic_attributes() -> Set<Seq<char>> {
    set!["title"@]
}

/// The attributes that single elements may carry: a link target on anchors.
pub open spec fn standard_element_attributes() -> Map<Seq<char>, Set<Seq<char>>> {
    map!["a"@ => set!["href"@]]
}

/// The URL schemes that a link target may have.
pub open spec fn standard_url_schemes() -> Set<Seq<char>> {
    set!["http"@, "https"@, "mailto"@]
}

/// The `rel` value that every anchor gets.
pub open spec fn standard_link_rel() -> Option<Seq<char>> {
    Some("nofollow noreferrer noopener"@)
}

/// `name` is the name of an event-handler attribute: it starts with `on`.
pub open spec fn is_event_handler(name: Seq<char>) -> bool {
    name.len() >= 2 && name[0] == 'o' && name[1] == 'n'
}

/// The standard policy names nothing through which markup can run code: no
/// element that loads or holds active content, no event-handler attribute, and
/// no URL scheme that holds code or data.
pub proof fn lemma_standard_policy_names_no_active_content()
    ensures
        !standard_elements().contains("script"@),
        !standard_elements().contains("style"@),
        !standard_elements().contains("iframe"@),
        !standard_elements().contains("object"@),
        !standard_elements().contains("embed"@),
        !standard_elements().contains("base"@),
        !standard_elements().contains("img"@),
        !standard_elements().contains("svg"@),
        forall|name: Seq<char>|
            standard_generic_attributes().contains(name) ==> !is_event_handler(name),
        forall|element: Seq<char>, name: Seq<char>|
            standard_element_attributes().dom().contains(element)
                && standard_element_attributes()[element].contains(name) ==> !is_event_handler(
                name,
            ),
        !standard_url_schemes().contains("javascript"@),
        !standard_url_schemes().contains("vbscript"@),
        !standard_url_schemes().contains("data"@),
{
    reveal_strlit("a");
    reveal_strlit("b");
    reveal_strlit("strong");
    reveal_strlit("i");
    reveal_strlit("em");
    reveal_strlit("code");
    reveal_strlit("pre");
    reveal_strlit("p");
    reveal_strlit("br");
    reveal_strlit("ul");
    reveal_strlit("ol");
    reveal_strlit("li");
    reveal_strlit("blockquote");
    reveal_strlit("title");
    reveal_strlit("href");
    reveal_strlit("http");
    reveal_strlit("https");
    reveal_strlit("mailto");
    reveal_strlit("script");
    reveal_strlit("style");
    reveal_strlit("iframe");
    reveal_strlit("object");
    reveal_strlit("embed");
    reveal_strlit("base");
    reveal_strlit("img");
    reveal_strlit("svg");
    reveal_strlit("javascript");
    reveal_strlit("vbscript");
    reveal_strlit("data");
    // Two names differ where their lengths differ; the pairs of one length
    // differ in the item named here.
    assert("a"@.len() == 1);
    assert("b"@.len() == 1);
    assert("strong"@.len() == 6);
    assert("i"@.len() == 1);
    assert("em"@.len() == 2);
    assert("code"@.len() == 4);
    assert("pre"@.len() == 3);
    assert("p"@.len() == 1);
    assert("br"@.len() == 2);
    assert("ul"@.len() == 2);
    assert("ol"@.len() == 2);
    assert("li"@.len() == 2);
    assert("blockquote"@.len() == 10);
    assert("http"@.len() == 4);
    assert("https"@.len() == 5);
    assert("mailto"@.len() == 6);
    assert("script"@.len() == 6);
    assert("style"@.len() == 5);
    assert("iframe"@.len() == 6);
    assert("object"@.len() == 6);
    assert("embed"@.len() == 5);
    assert("base"@.len() == 4);
    assert("img"@.len() == 3);
    assert("svg"@.len() == 3);
    assert("javascript"@.len() == 10);
    assert("vbscript"@.len() == 8);
    assert("data"@.len() == 4);
    assert("script"@[1] != "strong"@[1]);
    assert("iframe"@[0] != "strong"@[0]);
    assert("object"@[0] != "strong"@[0]);
    assert("base"@[0] != "code"@[0]);
    assert("img"@[0] != "pre"@[0]);
    assert("svg"@[0] != "pre"@[0]);
    assert("data"@[0] != "http"@[0]);
    assert("title"@[1] == 'i');
    assert("href"@[0] == 'h');
}

impl AllowListPolicy {
    /// The policy that all user content is held to.
    pub fn standard() -> (policy: AllowListPolicy)
        ensures
            policy.consistent(),
            policy.elements() == standard_elements(),
            policy.generic_attributes() == standard_generic_attributes(),
            policy.element_attributes() == standard_element_attributes(),
            policy.url_schemes() == standard_url_schemes(),
            policy.link_rel() == standard_link_rel(),
    {
        let mut elements: Vec<String> = Vec::new();
        elements.push("a".to_owned());
        elements.push("b".to_owned());
        elements.push("strong".to_owned());
        elements.push("i".to_owned());
        elements.push("em".to_owned());
        elements.push("code".to_owned());
        elements.push("pre".to_owned());
        elements.push("p".to_owned());
        elements.push("br".to_owned());
        elements.push("ul".to_owned());
        elements.push("ol".to_owned());
        elements.push("li".to_owned());
        elements.push("blockquote".to_owned());
        let mut generic_attributes: Vec<String> = Vec::new();
        generic_attributes.push("title".to_owned());
        let mut anchor_attributes: Vec<String> = Vec::new();
        anchor_attributes.push("href".to_owned());
        let mut element_attributes: Vec<ElementAttributes> = Vec::new();
        element_attributes.push(
            ElementAttributes { element: "a".to_owned(), attributes: anchor_attributes },
        );
        let mut url_schemes: Vec<String> = Vec::new();
        url_schemes.push("http".to_owned());
        url_schemes.push("https".to_owned());
        url_schemes.push("mailto".to_owned());
        let policy = AllowListPolicy {
            elements,
            generic_attributes,
            element_attributes,
            url_schemes,
            link_rel: Some("nofollow noreferrer noopener".to_owned()),
        };
        proof {
            reveal_strlit("a");
            reveal_strlit("b");
            reveal_strlit("strong");
            reveal_strlit("i");
            reveal_strlit("em");
            reveal_strlit("code");
            reveal_strlit("pre");
            reveal_strlit("p");
            reveal_strlit("br");
            reveal_strlit("ul");
            reveal_strlit("ol");
            reveal_strlit("li");
            reveal_strlit("blockquote");
            reveal_strlit("title");
            reveal_strlit("href");
            assert(policy.elements@[0]@ == "a"@);
            assert(policy.elements@[1]@ == "b"@);
            assert(policy.elements@[2]@ == "strong"@);
            assert(policy.elements@[3]@ == "i"@);
            assert(policy.elements@[4]@ == "em"@);
            assert(policy.elements@[5]@ == "code"@);
            assert(policy.elements@[6]@ == "pre"@);
            assert(policy.elements@[7]@ == "p"@);
            assert(policy.elements@[8]@ == "br"@);
            assert(policy.elements@[9]@ == "ul"@);
            assert(policy.elements@[10]@ == "ol"@);
            assert(policy.elements@[11]@ == "li"@);
            assert(policy.elements@[12]@ == "blockquote"@);
            assert(policy.elements() =~= standard_elements());
            assert(policy.generic_attributes@[0]@ == "title"@);
            assert(policy.generic_attributes() =~= standard_generic_attributes());
            assert(policy.url_schemes@[0]@ == "http"@);
            assert(policy.url_schemes@[1]@ == "https"@);
            assert(policy.url_schemes@[2]@ == "mailto"@);
            assert(policy.url_schemes() =~= standard_url_schemes());
            let entry = policy.entries()[0];
            assert(entry.element() == "a"@);
            assert(entry.attributes@[0]@ == "href"@);
            assert(entry.attributes() =~= set!["href"@]);
            assert(policy.element_attributes().dom() =~= set!["a"@]);
            assert(policy.element_attributes() =~= standard_element_attributes());
            assert("a"@ =~= seq!['a']);
        }
        policy
    }
}

/// `text` with each newline replaced by a line-break element.
pub open spec fn with_line_breaks(text: Seq<char>) -> Seq<char> {
    replace_all(text, seq!['\n'], seq!['<', 'b', 'r', '>'])
}

/// No newline is left once line breaks are put in: every line end of the text
/// reaches the parser as an element.
pub proof fn lemma_line_breaks_replace_every_newline(text: Seq<char>)
    ensures
        !contains(with_line_breaks(text), seq!['\n']),
{
    lemma_replace_leaves_none(text, seq!['\n'], seq!['<', 'b', 'r', '>']);
}

/// What `ammonia` makes of `markup` under the standard policy.
pub open spec fn cleaned(markup: Seq<char>) -> Seq<char> {
    cleaned_markup(
        standard_elements(),
        standard_generic_attributes(),
        standard_element_attributes(),
        standard_url_schemes(),
        standard_link_rel(),
        markup,
    )
}

/// What `sanitize_content` makes of `text`: the empty text stays empty; any
/// other text gets its newlines turned into line breaks and is then cleaned
/// under the standard policy.
pub open spec fn sanitized(text: Seq<char>) -> Seq<char> {
    if text.len() == 0 {
        text
    } else {
        cleaned(with_line_breaks(text))
    }
}

/// Sanitizing a second time changes nothing, for a text whose sanitized form
/// holds no newline and is left as it is by cleaning.
pub proof fn lemma_sanitize_twice(text: Seq<char>)
    ensures
        !contains(sanitized(text), seq!['\n']) && cleaned(sanitized(text)) == sanitized(text)
            ==> sanitized(sanitized(text)) == sanitized(text),
{
    let once = sanitized(text);
    if !contains(once, seq!['\n']) {
        lemma_replace_absent(once, seq!['\n'], seq!['<', 'b', 'r', '>']);
    }
}

/// Makes user content safe to show: line breaks are kept as `<br>`, and of the
/// markup only what the standard policy permits stays.
pub fn sanitize_content(content: &str) -> (clean: String)
    ensures
        clean@ == sanitized(content@),
        content@.len() == 0 ==> clean@.len() == 0,
{
    let text = chars_of(content);
    if text.len() == 0 {
        return string_of(&text);
    }
    let mut newline: Vec<char> = Vec::new();
    newline.push('\n');
    let mut line_break: Vec<char> = Vec::new();
    line_break.push('<');
    line_break.push('b');
    line_break.push('r');
    line_break.push('>');
    assert(newline@ =~= seq!['\n']);
    assert(line_break@ =~= seq!['<', 'b', 'r', '>']);
    let with_breaks = string_of(&replace_chars(&text, &newline, &line_break));
    let policy = AllowListPolicy::standard();
    clean_markup(&policy, with_breaks.as_str())
}

/// `text` with every occurrence of `pat` taken out.
pub open spec fn without(text: Seq<char>, pat: Seq<char>) -> Seq<char> {
    replace_all(text, pat, Seq::<char>::empty())
}

/// What `sanitize_for_db` makes of `text`: the surrounding whitespace is cut
/// off; then statement terminators, comment markers and the `xp_` prefix are
/// taken out, one after the other.
pub open spec fn db_safe(text: Seq<char>) -> Seq<char> {
    without(without(without(without(without(trim(text), ";"@), "--"@), "/*"@), "*/"@), "xp_"@)
}

/// Takes out of `content` what could end or comment out an SQL statement. This
/// is a second line of defence: statements are still to be prepared.
pub fn sanitize_for_db(content: &str) -> (safe: String)
    ensures
        safe@ == db_safe(content@),
{
    let nothing: Vec<char> = Vec::new();
    assert(nothing@ =~= Seq::<char>::empty());
    let text = trim_chars(&chars_of(content));
    let text = replace_chars(&text, &chars_of(";"), &nothing);
    let text = replace_chars(&text, &chars_of("--"), &nothing);
    let text = replace_chars(&text, &chars_of("/*"), &nothing);
    let text = replace_chars(&text, &chars_of("*/"), &nothing);
    let text = replace_chars(&text, &chars_of("xp_"), &nothing);
    string_of(&text)
}

} // verus!
