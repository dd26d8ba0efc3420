//! Addresses of web services: what of them may be shown, and how they are built.
use vstd::prelude::*;
use vstd::string::StringExecFns;
use vstd::utf8::{
    decode_utf8, encode_utf8, encode_utf8_decode_utf8, encode_utf8_valid_utf8, is_ascii_chars,
    is_ascii_chars_encode_utf8, is_char_boundary, is_char_boundary_iff_is_leading_byte,
    is_leading_byte_width_1,
};

use crate::address::{prefixed_hex, Address};
use crate::text::{
    byte_len, byte_length, decimal, decimal_text, join, joined, law_joined_parts_stay_apart, trim,
    trim_end_slashes, trimmed, views, without_trailing_slashes,
};

verus! {

/// What `Url::parse` makes of a text: the text of the URL, or that of the error.
pub uninterp spec fn parsed_url(text: Seq<char>) -> Result<Seq<char>, Seq<char>>;

/// The path segments of the URL that a text stands for, where it has a path that
/// begins with a slash.
pub uninterp spec fn url_segments(text: Seq<char>) -> Option<Seq<Seq<char>>>;

/// The URL that a text stands for, with another path.
pub uninterp spec fn url_with_path(text: Seq<char>, path: Seq<char>) -> Seq<char>;

/// The URL that a text stands for, with pairs added to its query.
pub uninterp spec fn url_with_query(text: Seq<char>, pairs: Seq<(Seq<char>, Seq<char>)>) -> Seq<char>;

/// A text that was read as this URL.
pub open spec fn url_read(url: Seq<char>) -> Result<Seq<char>, Seq<char>> {
    Ok(url)
}

/// A text that was refused with this error.
pub open spec fn url_refused(error: Seq<char>) -> Result<Seq<char>, Seq<char>> {
    Err(error)
}

/// The segments of a path.
pub open spec fn some_segments(segments: Seq<Seq<char>>) -> Option<Seq<Seq<char>>> {
    Some(segments)
}

/// The names and values of a query.
pub open spec fn pair_views(pairs: Seq<(String, String)>) -> Seq<(Seq<char>, Seq<char>)> {
    pairs.map_values(|pair: (String, String)| (pair.0@, pair.1@))
}

/// The bytes that the pairs of a query take at most, each byte written in three
/// and each pair with its two signs.
pub open spec fn query_room(pairs: Seq<(Seq<char>, Seq<char>)>) -> nat
    decreases pairs.len(),
{
    if pairs.len() == 0 {
        0
    } else {
        query_room(pairs.drop_last()) + 3 * byte_len(pairs.last().0) + 3 * byte_len(
            pairs.last().1,
        ) + 2
    }
}

/// `Url::parse` and the `Display` of `Url`: the text of the URL, or of the error,
/// is named by the text that was read.
#[verifier::external_body]
fn read_url(text: &str) -> (url: Result<String, String>)
    ensures
        match url {
            Ok(url) => parsed_url(text@) == url_read(url@),
            Err(error) => parsed_url(text@) == url_refused(error@),
        },
{
    match url::Url::parse(text) {
        Ok(url) => Ok(url.to_string()),
        Err(error) => Err(error.to_string()),
    }
}

/// The address of a node as it is dialled, or why the text is none.
pub fn endpoint_url(text: &str) -> (url: Result<String, String>)
    ensures
        match url {
            Ok(url) => parsed_url(text@) == url_read(url@),
            Err(error) => parsed_url(text@) == url_refused(error@),
        },
{
    read_url(text)
}

/// `Url::path_segments` on a text that `Url::parse` reads: the segments, each in
/// ASCII, are named by the text.
#[verifier::external_body]
fn path_segments(text: &str) -> (segments: Option<Vec<String>>)
    requires
        parsed_url(text@) is Ok,
    ensures
        match segments {
            Some(segments) => url_segments(text@) == some_segments(views(segments@)),
            None => url_segments(text@) is None,
        },
        segments matches Some(found) ==> forall|i: int| 0 <= i < found@.len() ==> is_ascii_chars(#[trigger] found@[i]@),
{
    let url = url::Url::parse(text).ok()?;
    Some(url.path_segments()?.map(str::to_owned).collect())
}

/// `Url::set_path` on a text that `Url::parse` reads: the text of the URL that
/// results is named by the text and the path. It panics where the URL would grow
/// beyond four gigabytes; each byte of the path takes three bytes at most.
#[verifier::external_body]
fn set_path(text: &str, path: &str) -> (url: String)
    requires
        parsed_url(text@) is Ok,
        byte_len(parsed_url(text@)->Ok_0) + 3 * byte_len(path@) + 8 <= u32::MAX,
    ensures
        url@ == url_with_path(text@, path@),
{
    let mut url = url::Url::parse(text).expect("the text was read before");
    url.set_path(path);
    url.to_string()
}

/// `Url::query_pairs_mut` and `Serializer::extend_pairs` on a text that
/// `Url::parse` reads: the text of the URL that results is named by the text and
/// the pairs. It panics where the URL would grow beyond four gigabytes.
#[verifier::external_body]
fn extend_query(text: &str, pairs: &Vec<(String, String)>) -> (url: String)
    requires
        parsed_url(text@) is Ok,
        byte_len(parsed_url(text@)->Ok_0) + query_room(pair_views(pairs@)) + 1 <= u32::MAX,
    ensures
        url@ == url_with_query(text@, pair_views(pairs@)),
{
    let mut url = url::Url::parse(text).expect("the text was read before");
    url.query_pairs_mut().extend_pairs(pairs);
    url.to_string()
}

/// What is shown of a secret text: nothing of an empty one, stars for one of
/// fewer than sixteen bytes, and the first and the last four bytes of any other.
pub open spec fn redacted_segment(segment: Seq<char>) -> Seq<char> {
    let bytes = encode_utf8(segment);
    if segment.len() == 0 {
        Seq::<char>::empty()
    } else if bytes.len() < 16 {
        "***"@
    } else {
        decode_utf8(bytes.subrange(0, 4)) + "..."@ + decode_utf8(
            bytes.subrange(bytes.len() - 4, bytes.len() as int),
        )
    }
}

/// The places where a long text is cut lie between characters.
pub open spec fn cuts_between_chars(segment: Seq<char>) -> bool {
    let bytes = encode_utf8(segment);
    bytes.len() >= 16 ==> is_char_boundary(bytes, 4) && is_char_boundary(bytes, bytes.len() - 4)
}

/// A text in ASCII can be cut anywhere.
proof fn lemma_ascii_cuts(segment: Seq<char>)
    requires
        is_ascii_chars(segment),
    ensures
        cuts_between_chars(segment),
{
    let bytes = encode_utf8(segment);
    is_ascii_chars_encode_utf8(segment);
    encode_utf8_valid_utf8(segment);
    assert forall|i: int| 0 <= i < bytes.len() implies is_char_boundary(bytes, i) by {
        assert(bytes[i] == segment[i] as u8);
        let byte = bytes[i];
        assert(is_leading_byte_width_1(byte));
        is_char_boundary_iff_is_leading_byte(bytes, i);
    }
}

/// What is shown of a secret text.
pub fn redact_segment(segment: &str) -> (shown: String)
    requires
        cuts_between_chars(segment@),
    ensures
        shown@ == redacted_segment(segment@),
{
    if segment.is_empty() {
        return String::new();
    }
    let length = segment.as_bytes().len();
    if length < 16 {
        return "***".to_owned();
    }
    let (head, _) = segment.split_at(4);
    let (_, tail) = segment.split_at(length - 4);
    let mut shown = head.to_owned();
    shown.append("...");
    shown.append(tail);
    proof {
        encode_utf8_decode_utf8(head@);
        encode_utf8_decode_utf8(tail@);
    }
    shown
}

/// Each of the segments as it may be shown.
pub open spec fn redacted_path(segments: Seq<Seq<char>>) -> Seq<char> {
    join(segments.map_values(|segment: Seq<char>| redacted_segment(segment)), '/')
}

/// The URL with each segment of its path as it may be shown. A text that is no
/// URL is treated as one segment.
pub open spec fn redacted_url(value: Seq<char>) -> Seq<char> {
    match parsed_url(value) {
        Err(_) => redacted_segment(value),
        Ok(url) => match url_segments(value) {
            None => url,
            Some(segments) => url_with_path(value, redacted_path(segments)),
        },
    }
}

/// `value` can be redacted: a text that is no URL is cut between characters, and
/// a URL stays within four gigabytes.
pub open spec fn redactable(value: Seq<char>) -> bool {
    match parsed_url(value) {
        Err(_) => cuts_between_chars(value),
        Ok(url) => url_segments(value) matches Some(segments) ==> byte_len(url) + 3 * byte_len(
            redacted_path(segments),
        ) + 8 <= u32::MAX,
    }
}

/// The path that may be shown in place of these segments.
pub fn redact_path(segments: &Vec<String>) -> (path: String)
    requires
        forall|i: int| 0 <= i < segments@.len() ==> is_ascii_chars(#[trigger] segments@[i]@),
    ensures
        path@ == redacted_path(views(segments@)),
{
    let ghost redact = |segment: Seq<char>| redacted_segment(segment);
    let mut shown: Vec<String> = Vec::new();
    let mut i: usize = 0;
    while i < segments.len()
        invariant
            i <= segments@.len(),
            redact == (|segment: Seq<char>| redacted_segment(segment)),
            forall|k: int| 0 <= k < segments@.len() ==> is_ascii_chars(#[trigger] segments@[k]@),
            views(shown@) == views(segments@).take(i as int).map_values(redact),
        decreases segments.len() - i,
    {
        proof {
            lemma_ascii_cuts(segments@[i as int]@);
        }
        let ghost before = shown@;
        shown.push(redact_segment(segments[i].as_str()));
        proof {
            assert(views(shown@) =~= views(before).push(shown@.last()@));
            assert(views(segments@).take(i + 1).map_values(redact) =~= views(segments@).take(
                i as int,
            ).map_values(redact).push(redacted_segment(segments@[i as int]@)));
        }
        i = i + 1;
    }
    proof {
        assert(views(segments@).take(i as int) =~= views(segments@));
    }
    joined(&shown, '/')
}

/// The URL with each segment of its path as it may be shown.
pub fn redact_url(value: &str) -> (shown: String)
    requires
        redactable(value@),
    ensures
        shown@ == redacted_url(value@),
{
    match read_url(value) {
        Err(_) => redact_segment(value),
        Ok(url) => match path_segments(value) {
            None => url,
            Some(segments) => {
                let path = redact_path(&segments);
                set_path(value, path.as_str())
            },
        },
    }
}

/// The URL as it may be shown, or `None` where it cannot be redacted.
pub fn try_redact_url(value: &str) -> (shown: Option<String>)
    ensures
        shown is Some == redactable(value@),
        shown matches Some(text) ==> text@ == redacted_url(value@),
{
    match read_url(value) {
        Err(_) => {
            let length = value.as_bytes().len();
            if length >= 16 && !(value.is_char_boundary(4) && value.is_char_boundary(length - 4)) {
                return None;
            }
        },
        Ok(url) => {
            if let Some(segments) = path_segments(value) {
                let path = redact_path(&segments);
                let room: u128 = byte_length(url.as_str()) as u128 + 3 * byte_length(
                    path.as_str(),
                ) as u128 + 8;
                if room > u32::MAX as u128 {
                    return None;
                }
            }
        },
    }
    Some(redact_url(value))
}

/// What is shown of a secret depends on nothing between its first and its last
/// four bytes, and of a short one not even on those.
pub proof fn law_redaction_hides_the_middle(a: Seq<char>, b: Seq<char>)
    ensures
        0 < byte_len(a) < 16 && 0 < byte_len(b) < 16 ==> redacted_segment(a) == redacted_segment(b),
        ({
            let x = encode_utf8(a);
            let y = encode_utf8(b);
            x.len() >= 16 && y.len() >= 16 && x.subrange(0, 4) == y.subrange(0, 4) && x.subrange(
                x.len() - 4,
                x.len() as int,
            ) == y.subrange(y.len() - 4, y.len() as int) ==> redacted_segment(a)
                == redacted_segment(b)
        }),
{
    if a.len() == 0 {
        assert(encode_utf8(a) =~= Seq::<u8>::empty());
    }
    if b.len() == 0 {
        assert(encode_utf8(b) =~= Seq::<u8>::empty());
    }
}

/// Of a secret in ASCII at most the first and the last four characters are shown: all of
/// one of fewer than sixteen is hidden.
pub proof fn law_redaction_shows_the_ends(segment: Seq<char>)
    requires
        is_ascii_chars(segment),
    ensures
        segment.len() == 0 ==> redacted_segment(segment).len() == 0,
        0 < segment.len() < 16 ==> redacted_segment(segment) == seq!['*', '*', '*'],
        segment.len() >= 16 ==> redacted_segment(segment) == segment.take(4) + seq!['.', '.', '.']
            + segment.skip(segment.len() - 4),
{
    let bytes = encode_utf8(segment);
    is_ascii_chars_encode_utf8(segment);
    reveal_strlit("***");
    reveal_strlit("...");
    assert("***"@ =~= seq!['*', '*', '*']);
    assert("..."@ =~= seq!['.', '.', '.']);
    if segment.len() >= 16 {
        let head = segment.take(4);
        let tail = segment.skip(segment.len() - 4);
        is_ascii_chars_encode_utf8(head);
        is_ascii_chars_encode_utf8(tail);
        assert(encode_utf8(head) =~= bytes.subrange(0, 4));
        assert(encode_utf8(tail) =~= bytes.subrange(bytes.len() - 4, bytes.len() as int));
        encode_utf8_decode_utf8(head);
        encode_utf8_decode_utf8(tail);
    }
}

/// The segments of a path are redacted one by one: a path of one segment is that segment
/// as it may be shown, and a longer one is made of the redacted paths of its parts.
pub proof fn law_paths_are_redacted_by_segment(
    front: Seq<Seq<char>>,
    back: Seq<Seq<char>>,
    segment: Seq<char>,
)
    ensures
        redacted_path(seq![segment]) == redacted_segment(segment),
        front.len() > 0 && back.len() > 0 ==> redacted_path(front + back) == redacted_path(
            front,
        ).push('/') + redacted_path(back),
{
    let redact = |segment: Seq<char>| redacted_segment(segment);
    assert(seq![segment].map_values(redact) =~= seq![redacted_segment(segment)]);
    assert((front + back).map_values(redact) =~= front.map_values(redact) + back.map_values(redact));
    if front.len() > 0 && back.len() > 0 {
        law_joined_parts_stay_apart(front.map_values(redact), back.map_values(redact), '/');
    }
}

/// Nothing of a path is shown but its redacted segments; a text that is no URL is
/// redacted whole, and a URL without such a path is shown as it is.
pub proof fn law_urls_are_shown_redacted(value: Seq<char>)
    ensures
        parsed_url(value) is Err ==> redacted_url(value) == redacted_segment(value),
        parsed_url(value) matches Ok(url) ==> match url_segments(value) {
            Some(segments) => redacted_url(value) == url_with_path(value, redacted_path(segments)),
            None => redacted_url(value) == url,
        },
{
}

/// The address of a market is that of the service, with or without slashes at its end,
/// and then the market.
pub proof fn law_markets_lie_below_the_service(base: Seq<char>, market: Seq<u8>)
    ensures
        market_path(base.push('/'), market) == market_path(base, market),
        markets_path(base.push('/')) == markets_path(base),
        base.len() == 0 || base.last() != '/' ==> {
            &&& market_path(base, market) == base + "/markets/"@ + prefixed_hex(market)
            &&& markets_path(base) == base + "/markets"@
        },
{
    assert(base.push('/').drop_last() =~= base);
}

/// The query for a list of markets asks for as many as wanted, from the place wanted on,
/// in the order wanted, and for a status only where one is given that is not blank.
pub proof fn law_queries_ask_for_what_is_wanted(
    limit: nat,
    offset: nat,
    order: Seq<char>,
    status: Option<Seq<char>>,
)
    ensures
        ({
            let query = markets_query(limit, offset, order, status);
            &&& query.len() >= 3
            &&& query[0] == ("limit"@, decimal(limit))
            &&& query[1] == ("offset"@, decimal(offset))
            &&& query[2] == ("order"@, order)
            &&& match status {
                Some(wanted) => if trim(wanted).len() > 0 {
                    query.len() == 4 && query[3] == ("status"@, wanted)
                } else {
                    query.len() == 3
                },
                None => query.len() == 3,
            }
        }),
{
}

/// The text of the address of one market.
pub open spec fn market_path(base: Seq<char>, market: Seq<u8>) -> Seq<char> {
    trim_end_slashes(base) + "/markets/"@ + prefixed_hex(market)
}

/// The URL under which the metadata of a market is found, or the error where the
/// base is none.
pub fn market_url(base: &str, market: &Address) -> (url: Result<String, String>)
    ensures
        match url {
            Ok(url) => parsed_url(market_path(base@, market@)) == url_read(url@),
            Err(error) => parsed_url(market_path(base@, market@)) == url_refused(error@),
        },
{
    let mut text = without_trailing_slashes(base);
    text.append("/markets/");
    text.append(market.to_hex().as_str());
    read_url(text.as_str())
}

/// The text of the address of the list of markets.
pub open spec fn markets_path(base: Seq<char>) -> Seq<char> {
    trim_end_slashes(base) + "/markets"@
}

/// The query for a list of markets: its length, its start, its order, and the
/// status that is wanted where one is given that is not blank.
pub open spec fn markets_query(
    limit: nat,
    offset: nat,
    order: Seq<char>,
    status: Option<Seq<char>>,
) -> Seq<(Seq<char>, Seq<char>)> {
    let pairs = seq![
        ("limit"@, decimal(limit)),
        ("offset"@, decimal(offset)),
        ("order"@, order),
    ];
    match status {
        Some(wanted) => if trim(wanted).len() > 0 {
            pairs.push(("status"@, wanted))
        } else {
            pairs
        },
        None => pairs,
    }
}

/// The view of an optional text.
pub open spec fn optional_view(text: Option<String>) -> Option<Seq<char>> {
    match text {
        Some(text) => Some(text@),
        None => None,
    }
}

/// The URL of the list of markets stays within four gigabytes.
pub open spec fn markets_url_fits(
    base: Seq<char>,
    limit: nat,
    offset: nat,
    order: Seq<char>,
    status: Option<Seq<char>>,
) -> bool {
    parsed_url(markets_path(base)) matches Ok(url) ==> byte_len(url) + query_room(
        markets_query(limit, offset, order, status),
    ) + 1 <= u32::MAX
}

/// The query for a list of markets.
pub fn query_pairs(limit: usize, offset: usize, order: &str, status: &Option<String>) -> (pairs: Vec<
    (String, String),
>)
    ensures
        pair_views(pairs@) == markets_query(
            limit as nat,
            offset as nat,
            order@,
            optional_view(*status),
        ),
{
    let mut pairs: Vec<(String, String)> = Vec::new();
    pairs.push(("limit".to_owned(), decimal_text(limit as u64)));
    pairs.push(("offset".to_owned(), decimal_text(offset as u64)));
    pairs.push(("order".to_owned(), order.to_owned()));
    if let Some(wanted) = status {
        if !trimmed(wanted.as_str()).as_str().is_empty() {
            pairs.push(("status".to_owned(), wanted.clone()));
        }
    }
    proof {
        assert(pair_views(pairs@) =~= markets_query(
            limit as nat,
            offset as nat,
            order@,
            optional_view(*status),
        ));
    }
    pairs
}

/// The bytes that the pairs of a query take at most, or `None` where that is more
/// than four gigabytes.
fn room_of(pairs: &Vec<(String, String)>) -> (room: Option<u64>)
    ensures
        match room {
            Some(room) => room == query_room(pair_views(pairs@)) && room <= u32::MAX,
            None => query_room(pair_views(pairs@)) > u32::MAX,
        },
{
    let mut room: u64 = 0;
    let mut i: usize = 0;
    let ghost all = pair_views(pairs@);
    while i < pairs.len()
        invariant
            i <= pairs@.len(),
            all == pair_views(pairs@),
            room == query_room(all.take(i as int)),
            room <= u32::MAX,
        decreases pairs.len() - i,
    {
        let name: u128 = byte_length(pairs[i].0.as_str()) as u128;
        let value: u128 = byte_length(pairs[i].1.as_str()) as u128;
        let next: u128 = room as u128 + 3 * name + 3 * value + 2;
        proof {
            assert(all.take(i + 1).drop_last() =~= all.take(i as int));
            assert(all.take(i + 1).last() == all[i as int]);
            assert(all[i as int] == (pairs@[i as int].0@, pairs@[i as int].1@));
            assert(next == query_room(all.take(i + 1)));
            lemma_query_room_grows(all, i + 1);
        }
        if next > u32::MAX as u128 {
            return None;
        }
        room = next as u64;
        i = i + 1;
    }
    proof {
        assert(all.take(i as int) =~= all);
    }
    Some(room)
}

/// A part of the pairs takes no more room than all of them.
proof fn lemma_query_room_grows(pairs: Seq<(Seq<char>, Seq<char>)>, n: int)
    requires
        0 <= n <= pairs.len(),
    ensures
        query_room(pairs.take(n)) <= query_room(pairs),
    decreases pairs.len() - n,
{
    if n < pairs.len() {
        assert(pairs.take(n + 1).drop_last() =~= pairs.take(n));
        lemma_query_room_grows(pairs, n + 1);
    } else {
        assert(pairs.take(n) =~= pairs);
    }
}

/// The URL under which a list of markets is found, or the error where the base
/// is none.
pub fn markets_url(
    base: &str,
    limit: usize,
    offset: usize,
    order: &str,
    status: &Option<String>,
) -> (url: Result<String, String>)
    requires
        markets_url_fits(base@, limit as nat, offset as nat, order@, optional_view(*status)),
    ensures
        match url {
            Ok(url) => parsed_url(markets_path(base@)) is Ok && url@ == url_with_query(
                markets_path(base@),
                markets_query(limit as nat, offset as nat, order@, optional_view(*status)),
            ),
            Err(error) => parsed_url(markets_path(base@)) == url_refused(error@),
        },
{
    let mut text = without_trailing_slashes(base);
    text.append("/markets");
    match read_url(text.as_str()) {
        Ok(_) => {
            let pairs = query_pairs(limit, offset, order, status);
            Ok(extend_query(text.as_str(), &pairs))
        },
        Err(error) => Err(error),
    }
}

/// The URL under which a list of markets is found, or `None` where it would grow
/// beyond four gigabytes.
pub fn try_markets_url(
    base: &str,
    limit: usize,
    offset: usize,
    order: &str,
    status: &Option<String>,
) -> (url: Option<Result<String, String>>)
    ensures
        url is Some == markets_url_fits(
            base@,
            limit as nat,
            offset as nat,
            order@,
            optional_view(*status),
        ),
        url matches Some(Ok(url)) ==> parsed_url(markets_path(base@)) is Ok && url@
            == url_with_query(
            markets_path(base@),
            markets_query(limit as nat, offset as nat, order@, optional_view(*status)),
        ),
        url matches Some(Err(error)) ==> parsed_url(markets_path(base@)) == url_refused(error@),
{
    let mut text = without_trailing_slashes(base);
    text.append("/markets");
    if let Ok(url) = read_url(text.as_str()) {
        let pairs = query_pairs(limit, offset, order, status);
        match room_of(&pairs) {
            None => {
                return None;
            },
            Some(room) => {
                if byte_length(url.as_str()) as u128 + room as u128 + 1 > u32::MAX as u128 {
                    return None;
                }
            },
        }
    }
    Some(markets_url(base, limit, offset, order, status))
}

} // verus!
