//! Urls of remotes, split into what a probe needs: host, port and path.
//!
//! A url has the shape `scheme://host:port/path`. The scheme with its
//! `://`, the port with its colon, and the path may each be left out. What
//! may stand before the host of a full url, such as a user name, is not
//! looked for and stays with the host.

use crate::duration::{all_digits, decimal_value, digit_value, is_digit, lowered};
use crate::health::text_of;
use vstd::prelude::*;
use vstd::string::*;

verus! {

/// Port that the scheme `https` stands for.
pub const HTTPS_PORT: u16 = 443;

/// A url in parts.
#[derive(Debug, Clone)]
pub struct Url {
    /// What stands before `://`, if the url has one.
    pub scheme: Option<String>,
    /// Host name or address.
    pub host: String,
    /// The port that the url names.
    pub port: Option<u16>,
    /// The path, with all that follows it; `/` where the url has none.
    pub path: String,
}

/// A [`Url`] as a mathematical value.
pub struct UrlView {
    pub scheme: Option<Seq<char>>,
    pub host: Seq<char>,
    pub port: Option<u16>,
    pub path: Seq<char>,
}

impl View for Url {
    type V = UrlView;

    open spec fn view(&self) -> UrlView {
        UrlView {
            scheme: text_of(self.scheme),
            host: self.host@,
            port: self.port,
            path: self.path@,
        }
    }
}

/// Position of the first `:` or `/` at or after `from`, or the length of
/// the text if there is none.
pub open spec fn first_delimiter(text: Seq<char>, from: int) -> int
    decreases text.len() - from,
{
    if from < 0 || from >= text.len() {
        text.len() as int
    } else if text[from] == ':' || text[from] == '/' {
        from
    } else {
        first_delimiter(text, from + 1)
    }
}

/// Position of the first `/` at or after `from`, or the length of the text
/// if there is none.
pub open spec fn first_slash(text: Seq<char>, from: int) -> int
    decreases text.len() - from,
{
    if from < 0 || from >= text.len() {
        text.len() as int
    } else if text[from] == '/' {
        from
    } else {
        first_slash(text, from + 1)
    }
}

/// Position of the last `:` from `from` up to `to`, or `from - 1` if there
/// is none.
pub open spec fn last_colon(text: Seq<char>, from: int, to: int) -> int
    decreases to - from,
{
    if to <= from || to > text.len() || from < 0 {
        from - 1
    } else if text[to - 1] == ':' {
        to - 1
    } else {
        last_colon(text, from, to - 1)
    }
}

/// Whether `://` stands at position `i`.
pub open spec fn is_scheme_mark(text: Seq<char>, i: int) -> bool {
    0 <= i && i + 3 <= text.len() && text[i] == ':' && text[i + 1] == '/' && text[i + 2] == '/'
}

/// Whether a text is a port number: decimal digits that give no more than
/// 65535.
pub open spec fn is_port(digits: Seq<char>) -> bool {
    digits.len() > 0 && all_digits(digits) && decimal_value(digits) <= 65535
}

/// The parts of a url.
///
/// The url has a scheme when the first `:` or `/` in it begins `://`. The
/// host starts after that and runs up to the next `/`, where the path
/// starts. Where the last `:` of that stretch is followed by a port number,
/// the host ends there.
pub open spec fn url_parts(text: Seq<char>) -> UrlView {
    let mark = first_delimiter(text, 0);
    let start = if is_scheme_mark(text, mark) {
        mark + 3
    } else {
        0
    };
    let slash = first_slash(text, start);
    let colon = last_colon(text, start, slash);
    let named = colon >= start && is_port(text.subrange(colon + 1, slash));
    UrlView {
        scheme: if is_scheme_mark(text, mark) {
            Some(text.subrange(0, mark))
        } else {
            None
        },
        host: if named {
            text.subrange(start, colon)
        } else {
            text.subrange(start, slash)
        },
        port: if named {
            Some(decimal_value(text.subrange(colon + 1, slash)) as u16)
        } else {
            None
        },
        path: if slash < text.len() {
            text.subrange(slash, text.len() as int)
        } else {
            seq!['/']
        },
    }
}

impl UrlView {
    /// The port to contact: the one that the url names, else the one that
    /// its scheme stands for, if it is `https` in any mix of cases.
    pub open spec fn effective_port(self) -> Option<u16> {
        match self.port {
            Some(port) => Some(port),
            None => match self.scheme {
                Some(scheme) => if lowered(scheme) == seq!['h', 't', 't', 'p', 's'] {
                    Some(HTTPS_PORT)
                } else {
                    None
                },
                None => None,
            },
        }
    }
}

/// The positions that the search for a delimiter gives lie in the text, and
/// no delimiter stands before them.
pub proof fn lemma_first_delimiter(text: Seq<char>, from: int)
    requires
        0 <= from <= text.len(),
    ensures
        from <= first_delimiter(text, from) <= text.len(),
        forall|k: int|
            from <= k < first_delimiter(text, from) ==> #[trigger] text[k] != ':' && text[k] != '/',
        first_delimiter(text, from) < text.len() ==> text[first_delimiter(text, from)] == ':'
            || text[first_delimiter(text, from)] == '/',
    decreases text.len() - from,
{
    if from < text.len() && !(text[from] == ':' || text[from] == '/') {
        lemma_first_delimiter(text, from + 1);
    }
}

/// The position that the search for a slash gives lies in the text, and no
/// slash stands before it.
pub proof fn lemma_first_slash(text: Seq<char>, from: int)
    requires
        0 <= from <= text.len(),
    ensures
        from <= first_slash(text, from) <= text.len(),
        forall|k: int| from <= k < first_slash(text, from) ==> #[trigger] text[k] != '/',
        first_slash(text, from) < text.len() ==> text[first_slash(text, from)] == '/',
    decreases text.len() - from,
{
    if from < text.len() && text[from] != '/' {
        lemma_first_slash(text, from + 1);
    }
}

/// The position that the search for the last colon gives lies in the
/// stretch, and no colon stands after it.
pub proof fn lemma_last_colon(text: Seq<char>, from: int, to: int)
    requires
        0 <= from <= to <= text.len(),
    ensures
        from - 1 <= last_colon(text, from, to) < to || to == from,
        last_colon(text, from, to) >= from ==> text[last_colon(text, from, to)] == ':',
        forall|k: int| last_colon(text, from, to) < k < to && from <= k ==> #[trigger] text[k] != ':',
    decreases to - from,
{
    if to > from && text[to - 1] != ':' {
        lemma_last_colon(text, from, to - 1);
    }
}

/// The host of a url holds no slash, and its path begins with one.
pub proof fn lemma_host_and_path(text: Seq<char>)
    ensures
        forall|k: int| 0 <= k < url_parts(text).host.len() ==> #[trigger] url_parts(text).host[k] != '/',
        url_parts(text).path.len() > 0,
        url_parts(text).path[0] == '/',
{
    let mark = first_delimiter(text, 0);
    lemma_first_delimiter(text, 0);
    let start = if is_scheme_mark(text, mark) {
        mark + 3
    } else {
        0
    };
    lemma_first_slash(text, start);
    let slash = first_slash(text, start);
    lemma_last_colon(text, start, slash);
}

fn port_number(text: &str, from: usize, to: usize) -> (r: Option<u16>)
    requires
        from <= to <= text@.len(),
    ensures
        r == if is_port(text@.subrange(from as int, to as int)) {
            Some(decimal_value(text@.subrange(from as int, to as int)) as u16)
        } else {
            None
        },
{
    let ghost digits = text@.subrange(from as int, to as int);
    if from == to {
        return None;
    }
    let mut value: u32 = 0;
    let mut i: usize = from;
    while i < to
        invariant
            from <= i <= to <= text@.len(),
            digits == text@.subrange(from as int, to as int),
            all_digits(text@.subrange(from as int, i as int)),
            value <= 65536,
            value == if decimal_value(text@.subrange(from as int, i as int)) > 65535 {
                65536
            } else {
                decimal_value(text@.subrange(from as int, i as int))
            },
        decreases to - i,
    {
        let c = text.get_char(i);
        if !('0' <= c && c <= '9') {
            assert(digits[i - from] == c);
            return None;
        }
        proof {
            let next = text@.subrange(from as int, i + 1);
            assert(next.drop_last() =~= text@.subrange(from as int, i as int));
            assert(next.last() == c);
            assert forall|k: int| 0 <= k < next.len() implies is_digit(#[trigger] next[k]) by {
                if k < next.len() - 1 {
                    assert(text@.subrange(from as int, i as int)[k] == next[k]);
                }
            }
        }
        let digit = (c as u32) - 48;
        assert(digit == digit_value(c));
        value = value * 10 + digit;
        if value > 65535 {
            value = 65536;
        }
        i = i + 1;
    }
    if value > 65535 {
        None
    } else {
        Some(value as u16)
    }
}

fn is_https(scheme: &str) -> (r: bool)
    ensures
        r == (lowered(scheme@) == seq!['h', 't', 't', 'p', 's']),
{
    let ghost low = lowered(scheme@);
    assert(low.len() == scheme@.len());
    if scheme.unicode_len() != 5 {
        return false;
    }
    let a = scheme.get_char(0);
    let b = scheme.get_char(1);
    let c = scheme.get_char(2);
    let d = scheme.get_char(3);
    let e = scheme.get_char(4);
    proof {
        assert(low[0] == crate::duration::ascii_lower(a));
        assert(low[1] == crate::duration::ascii_lower(b));
        assert(low[2] == crate::duration::ascii_lower(c));
        assert(low[3] == crate::duration::ascii_lower(d));
        assert(low[4] == crate::duration::ascii_lower(e));
    }
    let r = (a == 'h' || a == 'H') && (b == 't' || b == 'T') && (c == 't' || c == 'T') && (d == 'p'
        || d == 'P') && (e == 's' || e == 'S');
    proof {
        if r {
            assert(low =~= seq!['h', 't', 't', 'p', 's']);
        }
    }
    r
}

impl Url {
    /// The port to contact: the one that the url names, else the one that
    /// its scheme stands for.
    pub fn effective_port(&self) -> (r: Option<u16>)
        ensures
            r == self@.effective_port(),
    {
        match self.port {
            Some(port) => Some(port),
            None => match &self.scheme {
                Some(scheme) => if is_https(scheme.as_str()) {
                    Some(HTTPS_PORT)
                } else {
                    None
                },
                None => None,
            },
        }
    }
}

/// Splits a url into its parts.
pub fn split_url(text: &str) -> (r: Url)
    ensures
        r@ == url_parts(text@),
{
    let n = text.unicode_len();
    let mut mark: usize = 0;
    while mark < n && text.get_char(mark) != ':' && text.get_char(mark) != '/'
        invariant
            mark <= n,
            n == text@.len(),
            first_delimiter(text@, 0) == first_delimiter(text@, mark as int),
        decreases n - mark,
    {
        mark = mark + 1;
    }
    let has_scheme = mark < n && n - mark >= 3 && text.get_char(mark) == ':' && text.get_char(
        mark + 1,
    ) == '/' && text.get_char(mark + 2) == '/';
    assert(has_scheme == is_scheme_mark(text@, first_delimiter(text@, 0)));
    let start: usize = if has_scheme {
        mark + 3
    } else {
        0
    };
    let mut slash: usize = start;
    while slash < n && text.get_char(slash) != '/'
        invariant
            start <= slash <= n,
            n == text@.len(),
            first_slash(text@, start as int) == first_slash(text@, slash as int),
        decreases n - slash,
    {
        slash = slash + 1;
    }
    let mut after: usize = slash;
    while after > start && text.get_char(after - 1) != ':'
        invariant
            start <= after <= slash <= n,
            n == text@.len(),
            last_colon(text@, start as int, slash as int) == last_colon(
                text@,
                start as int,
                after as int,
            ),
        decreases after,
    {
        after = after - 1;
    }
    assert(last_colon(text@, start as int, slash as int) == after - 1);
    let port = if after > start {
        port_number(text, after, slash)
    } else {
        None
    };
    let host = match port {
        Some(_) => text.substring_char(start, after - 1).to_owned(),
        None => text.substring_char(start, slash).to_owned(),
    };
    let scheme = if has_scheme {
        Some(text.substring_char(0, mark).to_owned())
    } else {
        None
    };
    let path = if slash < n {
        text.substring_char(slash, n).to_owned()
    } else {
        proof {
            reveal_strlit("/");
            assert("/"@ =~= seq!['/']);
        }
        "/".to_owned()
    };
    Url { scheme, host, port, path }
}

} // verus!
