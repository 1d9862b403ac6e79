use vstd::prelude::*;
use vstd::string::StrSliceExecFns;

verus! {

/// A payload whose body is not a well-formed JSON object. Fatal for the
/// item it belongs to; never conflated with a non-match.
#[derive(Clone, Copy, Debug, PartialEq, Eq)]
pub struct PayloadError;

/// What reading one field of a JSON object text yields: `None` when the
/// text is not a JSON object at all, `Some(None)` when the object has no
/// string field under the key, and `Some(Some(v))` when it holds the
/// string `v` there. The outcome depends on the two texts alone.
pub uninterp spec fn json_str_field(payload: Seq<char>, key: Seq<char>) -> Option<Option<Seq<char>>>;

/// The abstract outcome that a concrete field lookup result stands for.
pub open spec fn field_model(r: Result<Option<String>, PayloadError>) -> Option<Option<Seq<char>>> {
    match r {
        Err(_) => None,
        Ok(None) => Some(None),
        Ok(Some(s)) => Some(Some(s@)),
    }
}

/// Relies on serde_json to parse a JSON object and read one field:
/// `serde_json::from_str` into a `serde_json::Map<String, Value>` (it
/// fails on any text it does not accept as a JSON object), `Map::get` for
/// the field, and the `Value::String` variant to tell a string field from
/// any other. The map is tree-backed, so parsing and lookup depend on the
/// two texts alone.
#[verifier::external_body]
fn lookup_str_field(payload: &str, key: &str) -> (r: Result<Option<String>, PayloadError>)
    ensures
        field_model(r) == json_str_field(payload@, key@),
{
    match serde_json::from_str::<serde_json::Map<String, serde_json::Value>>(payload) {
        Err(_) => Err(PayloadError),
        Ok(m) => match m.get(key) {
            Some(serde_json::Value::String(s)) => Ok(Some(s.clone())),
            _ => Ok(None),
        },
    }
}

/// ASCII lowering of one character; anything but `A`..`Z` stays itself.
pub open spec fn lower_char(c: char) -> char {
    if 'A' as int <= c as int && c as int <= 'Z' as int {
        ((c as int) + 32) as char
    } else {
        c
    }
}

/// ASCII lowering of a text, character by character.
pub open spec fn lower_seq(s: Seq<char>) -> Seq<char> {
    Seq::new(s.len(), |i: int| lower_char(s[i]))
}

/// The needle `n` occurs in `h` starting at position `i`.
pub open spec fn contains_at(h: Seq<char>, n: Seq<char>, i: int) -> bool {
    &&& 0 <= i
    &&& i + n.len() <= h.len()
    &&& forall|j: int| 0 <= j < n.len() ==> h[i + j] == n[j]
}

/// The needle `n` occurs somewhere in `h`.
pub open spec fn seq_contains(h: Seq<char>, n: Seq<char>) -> bool {
    exists|i: int| contains_at(h, n, i)
}

/// A URL names a known video provider or carries the bracketed video tag,
/// case-insensitively: after ASCII lowering it contains one of the two
/// watch-page prefixes or the short-link prefix, in `http` or `https`
/// form, or the literal `[video]` marker.
pub open spec fn url_matches(u: Seq<char>) -> bool {
    let l = lower_seq(u);
    ||| seq_contains(l, "http://www.youtube.com/"@)
    ||| seq_contains(l, "https://www.youtube.com/"@)
    ||| seq_contains(l, "http://youtu.be/"@)
    ||| seq_contains(l, "https://youtu.be/"@)
    ||| seq_contains(l, "[video]"@)
}

/// What classification decides for a payload text: `None` when the payload
/// is malformed, otherwise whether its `url` field is a string that
/// matches the provider rule. A missing or non-string field is a
/// non-match, never an error.
pub open spec fn classify_model(payload: Seq<char>) -> Option<bool> {
    match json_str_field(payload, "url"@) {
        None => None,
        Some(None) => Some(false),
        Some(Some(u)) => Some(url_matches(u)),
    }
}

/// The characters of `s`, in order.
fn to_chars(s: &str) -> (r: Vec<char>)
    ensures
        r@ == s@,
{
    let n = s.unicode_len();
    let mut r: Vec<char> = Vec::new();
    let mut i: usize = 0;
    while i < n
        invariant
            n == s@.len(),
            0 <= i <= n,
            r@ == s@.take(i as int),
        decreases n - i,
    {
        r.push(s.get_char(i));
        i = i + 1;
        proof {
            assert(r@ =~= s@.take(i as int));
        }
    }
    proof {
        assert(r@ =~= s@);
    }
    r
}

/// ASCII lowering of one character.
fn lower_char_exec(c: char) -> (r: char)
    ensures
        r == lower_char(c),
{
    if c >= 'A' && c <= 'Z' {
        let b = c as u8;
        (b + 32) as char
    } else {
        c
    }
}

/// ASCII lowering of a character vector.
fn lower_vec(v: &Vec<char>) -> (r: Vec<char>)
    ensures
        r@ == lower_seq(v@),
{
    let n = v.len();
    let mut r: Vec<char> = Vec::new();
    let mut i: usize = 0;
    while i < n
        invariant
            n == v@.len(),
            0 <= i <= n,
            r@.len() == i,
            forall|j: int| 0 <= j < i ==> r@[j] == lower_char(v@[j]),
        decreases n - i,
    {
        r.push(lower_char_exec(v[i]));
        i = i + 1;
    }
    proof {
        assert(r@ =~= lower_seq(v@));
    }
    r
}

/// Whether `n` occurs in `h` at exactly position `i`.
fn match_at(h: &Vec<char>, n: &Vec<char>, i: usize) -> (r: bool)
    requires
        i + n@.len() <= h@.len(),
    ensures
        r == contains_at(h@, n@, i as int),
{
    let m = n.len();
    let hl = h.len();
    let mut j: usize = 0;
    while j < m
        invariant
            m == n@.len(),
            hl == h@.len(),
            i + n@.len() <= h@.len(),
            0 <= j <= m,
            forall|k: int| 0 <= k < j ==> h@[i + k] == n@[k],
        decreases m - j,
    {
        if h[i + j] != n[j] {
            return false;
        }
        j = j + 1;
    }
    true
}

/// Whether `n` occurs anywhere in `h`.
fn contains_vec(h: &Vec<char>, n: &Vec<char>) -> (r: bool)
    ensures
        r == seq_contains(h@, n@),
{
    if n.len() > h.len() {
        proof {
            if seq_contains(h@, n@) {
                let k = choose|k: int| contains_at(h@, n@, k);
                assert(false);
            }
        }
        return false;
    }
    if n.len() == 0 {
        proof {
            assert(contains_at(h@, n@, 0));
        }
        return true;
    }
    let last = h.len() - n.len();
    let mut i: usize = 0;
    while i <= last
        invariant
            n@.len() <= h@.len(),
            last == h@.len() - n@.len(),
            last < usize::MAX,
            n@.len() >= 1,
            0 <= i <= last + 1,
            forall|k: int| 0 <= k < i ==> !contains_at(h@, n@, k),
        decreases last + 1 - i,
    {
        if match_at(h, n, i) {
            return true;
        }
        i = i + 1;
    }
    proof {
        if seq_contains(h@, n@) {
            let k = choose|k: int| contains_at(h@, n@, k);
            assert(0 <= k <= last);
            assert(false);
        }
    }
    false
}

/// Whether a URL text matches the video-provider rule.
pub fn url_is_video(url: &str) -> (r: bool)
    ensures
        r == url_matches(url@),
{
    let cs = to_chars(url);
    let low = lower_vec(&cs);
    let n1 = to_chars("http://www.youtube.com/");
    if contains_vec(&low, &n1) {
        return true;
    }
    let n2 = to_chars("https://www.youtube.com/");
    if contains_vec(&low, &n2) {
        return true;
    }
    let n3 = to_chars("http://youtu.be/");
    if contains_vec(&low, &n3) {
        return true;
    }
    let n4 = to_chars("https://youtu.be/");
    if contains_vec(&low, &n4) {
        return true;
    }
    let n5 = to_chars("[video]");
    contains_vec(&low, &n5)
}

/// Pure classifier over one raw payload text: parse it as a JSON object
/// (a parse failure is a fatal `PayloadError` for this item), then match
/// its `url` field, if that is a string, against the provider rule.
pub fn is_video(json: &str) -> (r: Result<bool, PayloadError>)
    ensures
        match r {
            Ok(b) => classify_model(json@) == Some(b),
            Err(_) => classify_model(json@) is None,
        },
{
    let field = match lookup_str_field(json, "url") {
        Ok(f) => f,
        Err(e) => {
            return Err(e);
        },
    };
    match field {
        None => Ok(false),
        Some(u) => Ok(url_is_video(u.as_str())),
    }
}

} // verus!
