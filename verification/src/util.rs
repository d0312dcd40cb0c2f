use vstd::prelude::*;

use crate::config::HN_ITEM_URL_PREFIX;
use crate::text::{decimal, has_prefix, push_char, text_equal, write_decimal};

verus! {

/// What html_escape's `decode_html_entities` gives for the text.
pub uninterp spec fn html_entities_decoded(text: Seq<char>) -> Seq<char>;

/// Calls html_escape's `decode_html_entities`. The contract claims that the
/// result is the crate's decoding of the text, and, as the crate's source
/// shows (it returns the input when it finds no `&`), that text without `&`
/// comes back unchanged.
#[verifier::external_body]
fn html_escape_decode(value: &str) -> (r: String)
    ensures
        r@ == html_entities_decoded(value@),
        !value@.contains('&') ==> r@ == value@,
{
    html_escape::decode_html_entities(value).into_owned()
}

/// Decodes the HTML entities in an HN title.
pub fn decode_title(value: &str) -> (r: String)
    ensures
        r@ == html_entities_decoded(value@),
{
    html_escape_decode(value)
}

/// What `xml_escape` writes for one char.
pub open spec fn xml_escaped_char(c: char) -> Seq<char> {
    if c == '&' {
        "&amp;"@
    } else if c == '<' {
        "&lt;"@
    } else if c == '>' {
        "&gt;"@
    } else if c == '"' {
        "&quot;"@
    } else {
        seq![c]
    }
}

/// Text with `&`, `<`, `>` and `"` replaced by their XML entities.
pub open spec fn xml_escaped(s: Seq<char>) -> Seq<char>
    decreases s.len(),
{
    if s.len() == 0 {
        Seq::empty()
    } else {
        xml_escaped_char(s[0]) + xml_escaped(s.drop_first())
    }
}

pub proof fn lemma_xml_escaped_push(s: Seq<char>, c: char)
    ensures
        xml_escaped(s.push(c)) == xml_escaped(s) + xml_escaped_char(c),
    decreases s.len(),
{
    if s.len() == 0 {
        assert(s.push(c).drop_first() =~= Seq::<char>::empty());
        assert(xml_escaped(Seq::<char>::empty()) == Seq::<char>::empty());
        assert(xml_escaped(s.push(c)) =~= xml_escaped_char(c));
    } else {
        lemma_xml_escaped_push(s.drop_first(), c);
        assert(s.push(c).drop_first() =~= s.drop_first().push(c));
        assert(xml_escaped(s.push(c)) =~= xml_escaped(s) + xml_escaped_char(c));
    }
}

/// Escapes `&`, `<`, `>` and `"` for XML text and attribute values.
pub fn xml_escape(value: &str) -> (r: String)
    ensures
        r@ == xml_escaped(value@),
{
    let mut escaped = String::new();
    let ghost mut done: Seq<char> = Seq::empty();
    for ch in it: value.chars()
        invariant
            it.seq() == value@,
            done == value@.take(it.index()),
            escaped@ == xml_escaped(done),
    {
        proof {
            lemma_xml_escaped_push(done, ch);
            assert(value@.take(it.index() + 1) =~= done.push(ch));
            done = done.push(ch);
        }
        if ch == '&' {
            escaped.append("&amp;");
        } else if ch == '<' {
            escaped.append("&lt;");
        } else if ch == '>' {
            escaped.append("&gt;");
        } else if ch == '"' {
            escaped.append("&quot;");
        } else {
            crate::text::push_char(&mut escaped, ch);
        }
    }
    assert(value@.take(value@.len() as int) =~= value@);
    escaped
}

/// Reads XML entities back: `&amp;`, `&lt;`, `&gt;` and `&quot;` become the
/// char they stand for; every other char stays.
pub open spec fn xml_unescaped(t: Seq<char>) -> Seq<char>
    decreases t.len(),
{
    if t.len() == 0 {
        Seq::empty()
    } else if t.len() >= 5 && t.take(5) == "&amp;"@ {
        seq!['&'] + xml_unescaped(t.skip(5))
    } else if t.len() >= 4 && t.take(4) == "&lt;"@ {
        seq!['<'] + xml_unescaped(t.skip(4))
    } else if t.len() >= 4 && t.take(4) == "&gt;"@ {
        seq!['>'] + xml_unescaped(t.skip(4))
    } else if t.len() >= 6 && t.take(6) == "&quot;"@ {
        seq!['"'] + xml_unescaped(t.skip(6))
    } else {
        seq![t[0]] + xml_unescaped(t.drop_first())
    }
}

/// Law: reading the entities of escaped text back gives the text, so no two
/// texts escape alike.
pub proof fn law_xml_escape_round_trip(s: Seq<char>)
    ensures
        xml_unescaped(xml_escaped(s)) == s,
    decreases s.len(),
{
    reveal_strlit("&amp;");
    reveal_strlit("&lt;");
    reveal_strlit("&gt;");
    reveal_strlit("&quot;");
    if s.len() > 0 {
        let c = s[0];
        let e = xml_escaped_char(c);
        let r = xml_escaped(s.drop_first());
        let t = e + r;
        law_xml_escape_round_trip(s.drop_first());
        assert(t.skip(e.len() as int) =~= r);
        if c == '&' {
            assert(t.take(5) =~= "&amp;"@);
        } else if c == '<' {
            assert(t.take(4) =~= "&lt;"@);
            assert(t.take(5) != "&amp;"@ || t.len() < 5) by {
                if t.len() >= 5 {
                    assert(t.take(5)[1] == 'l');
                }
            }
        } else if c == '>' {
            assert(t.take(4) =~= "&gt;"@);
            assert(t.take(4) != "&lt;"@) by {
                assert(t.take(4)[1] == 'g');
            }
            assert(t.take(5) != "&amp;"@ || t.len() < 5) by {
                if t.len() >= 5 {
                    assert(t.take(5)[1] == 'g');
                }
            }
        } else if c == '"' {
            assert(t.take(6) =~= "&quot;"@);
            assert(t.take(4) != "&lt;"@) by {
                assert(t.take(4)[1] == 'q');
            }
            assert(t.take(4) != "&gt;"@) by {
                assert(t.take(4)[1] == 'q');
            }
            assert(t.take(5) != "&amp;"@ || t.len() < 5) by {
                if t.len() >= 5 {
                    assert(t.take(5)[1] == 'q');
                }
            }
        } else {
            assert(t[0] == c);
            assert(t.drop_first() =~= r);
            if t.len() >= 4 {
                assert(t.take(4)[0] == c);
            }
            if t.len() >= 5 {
                assert(t.take(5)[0] == c);
            }
            if t.len() >= 6 {
                assert(t.take(6)[0] == c);
            }
        }
        assert(seq![c] + s.drop_first() =~= s);
    }
}

/// Law: escaped text holds no `<`, `>` or `"`.
pub proof fn law_xml_escape_removes_markup(s: Seq<char>)
    ensures
        !xml_escaped(s).contains('<'),
        !xml_escaped(s).contains('>'),
        !xml_escaped(s).contains('"'),
    decreases s.len(),
{
    reveal_strlit("&amp;");
    reveal_strlit("&lt;");
    reveal_strlit("&gt;");
    reveal_strlit("&quot;");
    if s.len() > 0 {
        law_xml_escape_removes_markup(s.drop_first());
        let e = xml_escaped_char(s[0]);
        let r = xml_escaped(s.drop_first());
        assert forall|i: int| 0 <= i < (e + r).len() implies (e + r)[i] != '<' && (e + r)[i] != '>'
            && (e + r)[i] != '"' by {
            if i >= e.len() {
                assert((e + r)[i] == r[i - e.len()]);
            }
        }
    }
}

/// Law: text without `&`, `<`, `>` and `"` escapes to itself.
pub proof fn law_xml_escape_plain_text(s: Seq<char>)
    requires
        !s.contains('&'),
        !s.contains('<'),
        !s.contains('>'),
        !s.contains('"'),
    ensures
        xml_escaped(s) == s,
    decreases s.len(),
{
    if s.len() > 0 {
        assert(s[0] != '&' && s[0] != '<' && s[0] != '>' && s[0] != '"');
        assert forall|c: char| s.drop_first().contains(c) implies s.contains(c) by {
            let j = choose|j: int| 0 <= j < s.drop_first().len() && s.drop_first()[j] == c;
            assert(s[j + 1] == c);
        }
        law_xml_escape_plain_text(s.drop_first());
        assert(seq![s[0]] + s.drop_first() =~= s);
    }
}

/// The parts of a parsed URL that the library reads.
pub struct UrlParts {
    pub scheme: String,
    pub host: Option<String>,
    pub port: Option<u16>,
    pub path: String,
}

pub open spec fn option_text(o: Option<String>) -> Option<Seq<char>> {
    match o {
        Some(s) => Some(s@),
        None => None,
    }
}

impl UrlParts {
    pub open spec fn model(self) -> (Seq<char>, Option<Seq<char>>, Option<u16>, Seq<char>) {
        (self.scheme@, option_text(self.host), self.port, self.path@)
    }
}

/// What the url crate's `Url::parse` gives for the text, read through its
/// `scheme`, `host_str`, `port` and `path` accessors (`None` where it rejects
/// the text).
pub uninterp spec fn url_parts(
    text: Seq<char>,
) -> Option<(Seq<char>, Option<Seq<char>>, Option<u16>, Seq<char>)>;

/// Calls the url crate's `Url::parse` and reads `scheme`, `host_str`,
/// `port` and `path`. The contract claims only that these are what the crate
/// gives for the text.
#[verifier::external_body]
pub(crate) fn parse_url(text: &str) -> (r: Option<UrlParts>)
    ensures
        r is Some <==> url_parts(text@) is Some,
        r matches Some(p) ==> url_parts(text@) == Some(p.model()),
{
    match url::Url::parse(text) {
        Ok(u) => Some(UrlParts {
            scheme: u.scheme().to_string(),
            host: u.host_str().map(|h| h.to_string()),
            port: u.port(),
            path: u.path().to_string(),
        }),
        Err(_) => None,
    }
}

/// The host without a leading `www.`.
pub open spec fn without_www(host: Seq<char>) -> Seq<char> {
    if host.len() >= 4 && host.take(4) == "www."@ {
        host.skip(4)
    } else {
        host
    }
}

/// Whether the port is the default one of the scheme.
pub open spec fn is_default_port(scheme: Seq<char>, port: u16) -> bool {
    (scheme == "http"@ && port == 80) || (scheme == "https"@ && port == 443)
}

/// The domain and path shown in a feed item's summary: the host without
/// `www.`, a non-default port, and the path unless it is empty or `/`.
/// Self-posts show their HN item address; text the url crate rejects, or
/// that has no host, is shown as it is.
pub open spec fn description_domain_text(url: Seq<char>, id: u64) -> Seq<char> {
    if url.len() == 0 {
        "news.ycombinator.com/item?id="@ + decimal(id as nat)
    } else {
        match url_parts(url) {
            None => url,
            Some((scheme, host, port, path)) => match host {
                None => url,
                Some(h) => {
                    let port_part = match port {
                        Some(p) => if is_default_port(scheme, p) {
                            Seq::empty()
                        } else {
                            seq![':'] + decimal(p as nat)
                        },
                        None => Seq::empty(),
                    };
                    let path_part = if path != "/"@ && path.len() > 0 {
                        path
                    } else {
                        Seq::empty()
                    };
                    without_www(h) + port_part + path_part
                },
            },
        }
    }
}

/// The domain and path for a feed item's summary.
pub fn description_domain(url: &str, id: u64) -> (r: String)
    ensures
        r@ == description_domain_text(url@, id),
{
    if url.unicode_len() == 0 {
        let mut r = String::from_str("news.ycombinator.com/item?id=");
        write_decimal(&mut r, id);
        return r;
    }
    let parsed = match parse_url(url) {
        Some(p) => p,
        None => return String::from_str(url),
    };
    let host = match &parsed.host {
        Some(h) => h,
        None => return String::from_str(url),
    };
    let mut value = if has_prefix(host.as_str(), "www.") {
        proof {
            reveal_strlit("www.");
        }
        String::from_str(host.as_str().substring_char(4, host.as_str().unicode_len()))
    } else {
        proof {
            reveal_strlit("www.");
        }
        host.clone()
    };
    assert(value@ == without_www(host@));
    match parsed.port {
        Some(port) => {
            let http = text_equal(parsed.scheme.as_str(), "http");
            let https = text_equal(parsed.scheme.as_str(), "https");
            if !((http && port == 80) || (https && port == 443)) {
                push_char(&mut value, ':');
                write_decimal(&mut value, port as u64);
            }
        },
        None => {},
    }
    let path = parsed.path.as_str();
    let slash = text_equal(path, "/");
    if !slash && path.unicode_len() > 0 {
        value.append(path);
    }
    assert(value@ =~= description_domain_text(url@, id));
    value
}

/// `https://news.ycombinator.com/item?id=` and the id in decimal.
pub open spec fn hn_item_url_text(id: u64) -> Seq<char> {
    "https://news.ycombinator.com/item?id="@ + decimal(id as nat)
}

/// The HN comments page of an item.
pub fn hn_item_url(id: u64) -> (r: String)
    ensures
        r@ == hn_item_url_text(id),
{
    let mut r = String::from_str(HN_ITEM_URL_PREFIX);
    proof {
        reveal_strlit("https://news.ycombinator.com/item?id=");
    }
    write_decimal(&mut r, id);
    r
}

} // verus!
