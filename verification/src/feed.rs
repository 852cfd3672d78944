//! Tracked mappings, feed items, and the text under which an item is relayed.

use vstd::prelude::*;

verus! {

/// The largest number of items asked for in one fetch. The relay looks no
/// further back than this one page of most recent items.
pub const FETCH_LIMIT: usize = 20;

/// One configured route: items of `identity` are relayed to `destination`.
#[derive(Clone, Copy, Debug, PartialEq, Eq, Structural)]
pub struct TrackedMapping {
    pub identity: u64,
    pub destination: u64,
}

/// An item of the source feed. A larger `id` is a more recent item.
#[derive(Clone, Copy, Debug, PartialEq, Eq, Structural)]
pub struct FeedItem {
    pub id: u64,
}

/// Why a fetch of recent items produced nothing usable. Every variant is
/// recoverable: the mapping is skipped for the cycle in which it occurs.
#[derive(Clone, Copy, Debug, PartialEq, Eq, Structural)]
pub enum FetchError {
    Authentication,
    Network,
    RateLimited,
}

/// Tells from the HTTP status with which the feed service answered a failed
/// fetch which kind of failure it is: 401 and 403 refuse the credential, 429
/// rejects for asking too often, every other status counts as a failure of
/// the network.
pub fn fetch_error_for_status(status: u16) -> (error: FetchError)
    ensures
        status == 401 || status == 403 ==> error == FetchError::Authentication,
        status == 429 ==> error == FetchError::RateLimited,
        status != 401 && status != 403 && status != 429 ==> error == FetchError::Network,
{
    if status == 401 || status == 403 {
        FetchError::Authentication
    } else if status == 429 {
        FetchError::RateLimited
    } else {
        FetchError::Network
    }
}

/// Why a message did not reach its destination. The relay records the item as
/// relayed all the same and does not try again.
#[derive(Clone, Copy, Debug, PartialEq, Eq, Structural)]
pub enum DeliveryError {
    Network,
    Refused,
}

/// The character that stands for the decimal digit `d`.
pub open spec fn digit_char(d: nat) -> char
    recommends
        d < 10,
{
    if d == 0 {
        '0'
    } else if d == 1 {
        '1'
    } else if d == 2 {
        '2'
    } else if d == 3 {
        '3'
    } else if d == 4 {
        '4'
    } else if d == 5 {
        '5'
    } else if d == 6 {
        '6'
    } else if d == 7 {
        '7'
    } else if d == 8 {
        '8'
    } else {
        '9'
    }
}

/// The decimal numeral of `n`, most significant digit first, without leading
/// zeros.
pub open spec fn decimal(n: nat) -> Seq<char>
    decreases n,
{
    if n < 10 {
        seq![digit_char(n)]
    } else {
        decimal(n / 10).push(digit_char(n % 10))
    }
}

/// What every relayed reference starts with.
pub open spec fn reference_prefix() -> Seq<char> {
    "https://twitter.com/twitter/status/"@
}

/// The text under which the item `id` is relayed: the prefix followed by the
/// decimal numeral of the identifier.
pub open spec fn reference(id: u64) -> Seq<char> {
    reference_prefix() + decimal(id as nat)
}

fn push_digit(text: &mut String, d: u64)
    requires
        d < 10,
    ensures
        final(text)@ == old(text)@.push(digit_char(d as nat)),
{
    proof {
        reveal_strlit("0");
        reveal_strlit("1");
        reveal_strlit("2");
        reveal_strlit("3");
        reveal_strlit("4");
        reveal_strlit("5");
        reveal_strlit("6");
        reveal_strlit("7");
        reveal_strlit("8");
        reveal_strlit("9");
    }
    let glyph: &str = if d == 0 {
        "0"
    } else if d == 1 {
        "1"
    } else if d == 2 {
        "2"
    } else if d == 3 {
        "3"
    } else if d == 4 {
        "4"
    } else if d == 5 {
        "5"
    } else if d == 6 {
        "6"
    } else if d == 7 {
        "7"
    } else if d == 8 {
        "8"
    } else {
        "9"
    };
    assert(glyph@ =~= seq![digit_char(d as nat)]);
    text.append(glyph);
    assert(text@ =~= old(text)@.push(digit_char(d as nat)));
}

fn push_decimal(text: &mut String, n: u64)
    ensures
        final(text)@ == old(text)@ + decimal(n as nat),
    decreases n,
{
    if n >= 10 {
        push_decimal(text, n / 10);
    }
    push_digit(text, n % 10);
    assert(text@ =~= old(text)@ + decimal(n as nat));
}

/// Renders the reference of an item from its identifier.
pub fn reference_text(id: u64) -> (text: String)
    ensures
        text@ == reference(id),
{
    let mut text = "https://twitter.com/twitter/status/".to_owned();
    push_decimal(&mut text, id);
    text
}

impl FeedItem {
    /// The text under which this item is relayed.
    pub fn reference(&self) -> (text: String)
        ensures
            text@ == reference(self.id),
    {
        reference_text(self.id)
    }
}

} // verus!
