use vstd::prelude::*;
use vstd::string::StringExecFns;

verus! {

/// One decimal digit as a character.
pub open spec fn digit_char(d: int) -> char {
    (48 + d) as char
}

/// The decimal digits of a nonnegative number, most significant first.
pub open spec fn dec_digits(n: int) -> Seq<char>
    decreases n,
{
    if n < 10 {
        seq![digit_char(n)]
    } else {
        dec_digits(n / 10) + seq![digit_char(n % 10)]
    }
}

/// The decimal rendering of an integer: its digits, behind a minus sign
/// when it is negative.
pub open spec fn dec_str(n: int) -> Seq<char> {
    if n < 0 {
        seq!['-'] + dec_digits(-n)
    } else {
        dec_digits(n)
    }
}

/// Relies on `String::push`: it appends exactly the one character.
#[verifier::external_body]
fn push_char(s: &mut String, c: char)
    ensures
        final(s)@ == old(s)@ + seq![c],
{
    s.push(c);
}

/// Append the decimal digits of `n`, most significant first.
fn push_dec(n: u64, out: &mut String)
    ensures
        final(out)@ == old(out)@ + dec_digits(n as int),
    decreases n,
{
    if n >= 10 {
        push_dec(n / 10, out);
    }
    let d = (n % 10) as u8;
    push_char(out, (48 + d) as char);
    proof {
        assert((48 + d) as char == digit_char(n as int % 10));
        if n < 10 {
            assert(n as int % 10 == n as int);
            assert(final(out)@ =~= old(out)@ + dec_digits(n as int));
        } else {
            assert(final(out)@ =~= old(out)@ + dec_digits(n as int));
        }
    }
}

/// The address of the remote identifier-list endpoint.
pub open spec fn spec_top_stories_url() -> Seq<char> {
    "https://hacker-news.firebaseio.com/v0/topstories.json"@
}

/// The fetch URL of the ordered identifier list.
pub fn top_stories_url() -> (r: String)
    ensures
        r@ == spec_top_stories_url(),
{
    "https://hacker-news.firebaseio.com/v0/topstories.json".to_owned()
}

/// The request key of one item: its fully qualified fetch URL, made of the
/// base address, the identifier in decimal, and the `.json` suffix.
pub open spec fn spec_item_url(id: int) -> Seq<char> {
    "https://hacker-news.firebaseio.com/v0/item/"@ + dec_str(id) + ".json"@
}

/// The fetch URL, and cache key, of the item named by `id`.
pub fn item_url(id: i32) -> (r: String)
    ensures
        r@ == spec_item_url(id as int),
{
    let mut s = "https://hacker-news.firebaseio.com/v0/item/".to_owned();
    let mag: u64 = if id < 0 {
        push_char(&mut s, '-');
        (-(id as i64)) as u64
    } else {
        id as u64
    };
    proof {
        assert(s@ + dec_digits(mag as int) =~= "https://hacker-news.firebaseio.com/v0/item/"@
            + dec_str(id as int));
    }
    push_dec(mag, &mut s);
    s.append(".json");
    proof {
        assert(s@ =~= spec_item_url(id as int));
    }
    s
}

} // verus!
