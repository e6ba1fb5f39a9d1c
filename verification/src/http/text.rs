use vstd::prelude::*;

use super::errors::HttpsServiceError;
use vstd::string::{StrSliceExecFns, StringExecFns};

verus! {

/// Whether `pat` occurs in `s` at position `i`.
pub open spec fn matches_at<A>(s: Seq<A>, pat: Seq<A>, i: int) -> bool {
    0 <= i && i + pat.len() <= s.len() && s.subrange(i, i + pat.len()) == pat
}

/// Whether `i` is the first position where `pat` occurs in `s`.
pub open spec fn is_first_match<A>(s: Seq<A>, pat: Seq<A>, i: int) -> bool {
    matches_at(s, pat, i) && forall|j: int| 0 <= j < i ==> !#[trigger] matches_at(s, pat, j)
}

/// The first position where `pat` occurs in `s`, if it occurs.
pub open spec fn first_match<A>(s: Seq<A>, pat: Seq<A>) -> Option<int> {
    if exists|i: int| is_first_match(s, pat, i) {
        Some(choose|i: int| is_first_match(s, pat, i))
    } else {
        None
    }
}

/// What comes before the first `pat` in `s`; all of `s` when `pat` does not occur.
pub open spec fn before_first<A>(s: Seq<A>, pat: Seq<A>) -> Seq<A> {
    match first_match(s, pat) {
        Some(i) => s.take(i),
        None => s,
    }
}

/// What comes after the first `pat` in `s`, if `pat` occurs.
pub open spec fn after_first<A>(s: Seq<A>, pat: Seq<A>) -> Option<Seq<A>> {
    match first_match(s, pat) {
        Some(i) => Some(s.skip(i + pat.len())),
        None => None,
    }
}

pub proof fn lemma_first_match_unique<A>(s: Seq<A>, pat: Seq<A>, i: int, j: int)
    requires
        is_first_match(s, pat, i),
        is_first_match(s, pat, j),
    ensures
        i == j,
{
    if i < j {
        assert(matches_at(s, pat, i));
    } else if j < i {
        assert(matches_at(s, pat, j));
    }
}

/// The first position where `pat` occurs in `s`, if it occurs.
pub fn find_bytes(s: &[u8], pat: &[u8]) -> (r: Option<usize>)
    ensures
        match r {
            Some(i) => first_match(s@, pat@) == Some(i as int) && is_first_match(s@, pat@, i as int),
            None => first_match(s@, pat@) is None,
        },
{
    if pat.len() > s.len() {
        proof {
            if exists|c: int| is_first_match(s@, pat@, c) {
                let c = choose|c: int| is_first_match(s@, pat@, c);
                assert(matches_at(s@, pat@, c));
            }
        }
        return None;
    }
    let mut i: usize = 0;
    while i <= s.len() - pat.len()
        invariant
            pat.len() <= s.len(),
            i <= s.len(),
            forall|j: int| 0 <= j < i ==> !#[trigger] matches_at(s@, pat@, j),
        decreases s.len() - i,
    {
        let mut k: usize = 0;
        let mut same = true;
        assert(s@.subrange(i as int, i as int) =~= pat@.take(0));
        while k < pat.len()
            invariant
                i + pat.len() <= s.len(),
                k <= pat.len(),
                same == (s@.subrange(i as int, i + k) == pat@.take(k as int)),
            decreases pat.len() - k,
        {
            if same && s[i + k] != pat[k] {
                same = false;
                assert(s@.subrange(i as int, i + k + 1)[k as int] != pat@.take(k + 1)[k as int]);
            }
            proof {
                if same {
                    assert(s@.subrange(i as int, i + k + 1) =~= pat@.take(k + 1));
                } else if s@.subrange(i as int, i + k + 1) == pat@.take(k + 1) {
                    assert(s@.subrange(i as int, i + k) =~= s@.subrange(i as int, i + k + 1).take(
                        k as int,
                    ));
                    assert(pat@.take(k as int) =~= pat@.take(k + 1).take(k as int));
                }
            }
            k += 1;
        }
        assert(pat@.take(pat.len() as int) =~= pat@);
        proof {
            if pat.len() == 0 {
                assert(s@.subrange(i as int, i as int) =~= pat@);
            }
        }
        if same {
            proof {
                assert(is_first_match(s@, pat@, i as int));
                let c = choose|c: int| is_first_match(s@, pat@, c);
                lemma_first_match_unique(s@, pat@, i as int, c);
            }
            return Some(i);
        }
        i += 1;
    }
    proof {
        if exists|c: int| is_first_match(s@, pat@, c) {
            let c = choose|c: int| is_first_match(s@, pat@, c);
            assert(matches_at(s@, pat@, c));
        }
    }
    None
}

/// The characters of `s`.
pub fn str_chars(s: &str) -> (chars: Vec<char>)
    ensures
        chars@ == s@,
{
    let n = s.unicode_len();
    let mut chars: Vec<char> = Vec::new();
    let mut i: usize = 0;
    while i < n
        invariant
            n == s@.len(),
            i <= n,
            chars@ == s@.take(i as int),
        decreases n - i,
    {
        chars.push(s.get_char(i));
        assert(chars@ =~= s@.take(i + 1));
        i += 1;
    }
    assert(s@.take(n as int) =~= s@);
    chars
}

/// The first position where `pat` occurs in `s`, if it occurs.
pub fn find_chars(s: &[char], pat: &[char]) -> (r: Option<usize>)
    ensures
        match r {
            Some(i) => first_match(s@, pat@) == Some(i as int) && is_first_match(s@, pat@, i as int),
            None => first_match(s@, pat@) is None,
        },
{
    if pat.len() > s.len() {
        proof {
            if exists|c: int| is_first_match(s@, pat@, c) {
                let c = choose|c: int| is_first_match(s@, pat@, c);
                assert(matches_at(s@, pat@, c));
            }
        }
        return None;
    }
    let mut i: usize = 0;
    while i <= s.len() - pat.len()
        invariant
            pat.len() <= s.len(),
            i <= s.len(),
            forall|j: int| 0 <= j < i ==> !#[trigger] matches_at(s@, pat@, j),
        decreases s.len() - i,
    {
        let mut k: usize = 0;
        let mut same = true;
        assert(s@.subrange(i as int, i as int) =~= pat@.take(0));
        while k < pat.len()
            invariant
                i + pat.len() <= s.len(),
                k <= pat.len(),
                same == (s@.subrange(i as int, i + k) == pat@.take(k as int)),
            decreases pat.len() - k,
        {
            if same && s[i + k] != pat[k] {
                same = false;
                assert(s@.subrange(i as int, i + k + 1)[k as int] != pat@.take(k + 1)[k as int]);
            }
            proof {
                if same {
                    assert(s@.subrange(i as int, i + k + 1) =~= pat@.take(k + 1));
                } else if s@.subrange(i as int, i + k + 1) == pat@.take(k + 1) {
                    assert(s@.subrange(i as int, i + k) =~= s@.subrange(i as int, i + k + 1).take(
                        k as int,
                    ));
                    assert(pat@.take(k as int) =~= pat@.take(k + 1).take(k as int));
                }
            }
            k += 1;
        }
        assert(pat@.take(pat.len() as int) =~= pat@);
        proof {
            if pat.len() == 0 {
                assert(s@.subrange(i as int, i as int) =~= pat@);
            }
        }
        if same {
            proof {
                assert(is_first_match(s@, pat@, i as int));
                let c = choose|c: int| is_first_match(s@, pat@, c);
                lemma_first_match_unique(s@, pat@, i as int, c);
            }
            return Some(i);
        }
        i += 1;
    }
    proof {
        if exists|c: int| is_first_match(s@, pat@, c) {
            let c = choose|c: int| is_first_match(s@, pat@, c);
            assert(matches_at(s@, pat@, c));
        }
    }
    None
}

/// The body of an HTTP response: what follows the first empty line, if there is one.
pub fn response_body(bytes: &[u8]) -> (body: Option<Vec<u8>>)
    ensures
        match body {
            Some(b) => after_first(bytes@, seq![13u8, 10u8, 13u8, 10u8]) == Some(b@),
            None => after_first(bytes@, seq![13u8, 10u8, 13u8, 10u8]) is None,
        },
{
    let separator: [u8; 4] = [13u8, 10u8, 13u8, 10u8];
    assert(separator@ =~= seq![13u8, 10u8, 13u8, 10u8]);
    match find_bytes(bytes, separator.as_slice()) {
        Some(i) => {
            assert(matches_at(bytes@, separator@, i as int));
            let n = bytes.len();
            assert(i + 4 <= n);
            let b = vstd::slice::slice_to_vec(&bytes[i + 4..n]);
            assert(b@ =~= bytes@.skip(i + 4));
            Some(b)
        },
        None => None,
    }
}

/// The host without its port: what comes before the first `:`.
pub fn remove_port_from_host(host: &str) -> (r: String)
    ensures
        r@ == before_first(host@, seq![':']),
{
    let chars = str_chars(host);
    let colon: [char; 1] = [':'];
    assert(colon@ =~= seq![':']);
    match find_chars(chars.as_slice(), colon.as_slice()) {
        Some(i) => {
            assert(host@.subrange(0, i as int) =~= host@.take(i as int));
            String::from_str(host.substring_char(0, i))
        },
        None => String::from_str(host),
    }
}

/// The host and port of a URL: what comes between the first `://` and the next `://` or `/`,
/// with the port 443 added when it names none.
pub open spec fn url_host(url: Seq<char>) -> Option<Seq<char>> {
    match after_first(url, seq![':', '/', '/']) {
        None => None,
        Some(rest) => {
            let host = before_first(before_first(rest, seq![':', '/', '/']), seq!['/']);
            if first_match(host, seq![':']) is Some {
                Some(host)
            } else {
                Some(host + seq![':', '4', '4', '3'])
            }
        },
    }
}

/// The host and port that a URL names; an error when the URL has no `://`.
pub fn url_to_host(url: &str) -> (res: Result<String, HttpsServiceError>)
    ensures
        match res {
            Ok(host) => url_host(url@) == Some(host@),
            Err(e) => url_host(url@) is None && e.0@ == "Missign HOST in URL: "@ + url@,
        },
{
    let chars = str_chars(url);
    let scheme: [char; 3] = [':', '/', '/'];
    assert(scheme@ =~= seq![':', '/', '/']);
    let slash: [char; 1] = ['/'];
    assert(slash@ =~= seq!['/']);
    let start = match find_chars(chars.as_slice(), scheme.as_slice()) {
        Some(i) => {
            assert(matches_at(chars@, scheme@, i as int));
            assert(i + 3 <= chars.len());
            i + 3
        },
        None => {
            let message = String::from_str("Missign HOST in URL: ");
            return Err(HttpsServiceError(message.concat(url)));
        },
    };
    assert(matches_at(url@, scheme@, start - 3));
    let rest = vstd::slice::slice_to_vec(&chars.as_slice()[start..chars.len()]);
    let ghost rest_view = url@.skip(start as int);
    assert(rest@ =~= rest_view);
    assert(after_first(url@, seq![':', '/', '/']) == Some(rest_view));
    // the piece up to the next `://`
    let urn_end = match find_chars(rest.as_slice(), scheme.as_slice()) {
        Some(j) => j,
        None => rest.len(),
    };
    let ghost urn = before_first(rest_view, seq![':', '/', '/']);
    assert(rest@.take(urn_end as int) =~= urn) by {
        if urn_end == rest.len() {
            assert(rest@.take(urn_end as int) =~= rest@);
        }
    }
    let urn_chars = vstd::slice::slice_to_vec(&rest.as_slice()[0..urn_end]);
    assert(urn_chars@ =~= urn);
    // the piece up to the first `/`
    let host_end = match find_chars(urn_chars.as_slice(), slash.as_slice()) {
        Some(k) => k,
        None => urn_end,
    };
    let ghost host_view = before_first(urn, seq!['/']);
    assert(urn_chars@.take(host_end as int) =~= host_view) by {
        if host_end == urn_end {
            assert(urn_chars@.take(host_end as int) =~= urn_chars@);
        }
    }
    assert(url@.subrange(start as int, (start + host_end) as int) =~= host_view);
    let host = String::from_str(url.substring_char(start, start + host_end));
    let host_chars = vstd::slice::slice_to_vec(&urn_chars.as_slice()[0..host_end]);
    assert(host_chars@ =~= host_view);
    let colon: [char; 1] = [':'];
    assert(colon@ =~= seq![':']);
    let has_colon = find_chars(host_chars.as_slice(), colon.as_slice()).is_some();
    assert(has_colon == (first_match(host_view, seq![':']) is Some));
    assert(host@ == host_view);
    if has_colon {
        Ok(host)
    } else {
        proof {
            reveal_strlit(":443");
        }
        let host = host.concat(":443");
        assert(host@ =~= host_view + seq![':', '4', '4', '3']);
        Ok(host)
    }
}

/// The text of a GET request for `path` with `query_params` to `host`.
pub fn request_text(path: &str, query_params: &str, host: &str) -> (text: String)
    ensures
        text@ == "GET "@ + path@ + "?"@ + query_params@ + " HTTP/1.1\r\nHost: "@ + host@
            + "\r\n\r\n"@,
{
    let text = String::from_str("GET ");
    let text = text.concat(path);
    let text = text.concat("?");
    let text = text.concat(query_params);
    let text = text.concat(" HTTP/1.1\r\nHost: ");
    let text = text.concat(host);
    text.concat("\r\n\r\n")
}

} // verus!
