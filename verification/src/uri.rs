//! Radio URIs: `radio://<radio>/<channel>/<rate>/<address>?<parameters>`.

use crate::text;
use vstd::prelude::*;
use vstd::string::*;

verus! {

// ---------------------------------------------------------------------------
// The timeout parameter
// ---------------------------------------------------------------------------

/// One of the parameters of a query sets the timeout.
pub open spec fn sets_timeout(query: Seq<char>) -> bool {
    exists|i: int|
        0 <= i < text::pieces(query, '&').len() && text::begins_with(
            #[trigger] text::pieces(query, '&')[i],
            "timeout="@,
        )
}

/// The URI with a timeout: unchanged when its query sets one, with a parameter of two seconds
/// behind it otherwise.
pub open spec fn with_timeout(uri: Seq<char>) -> Seq<char> {
    let parts = text::pieces(uri, '?');
    if parts.len() < 2 {
        uri + "?timeout=2000"@
    } else if sets_timeout(parts[1]) {
        uri
    } else {
        uri + "&timeout=2000"@
    }
}

fn query_sets_timeout(query: &Vec<char>) -> (r: bool)
    ensures
        r == sets_timeout(query@),
{
    let params = text::split(query.as_slice(), '&');
    let prefix = text::chars_of("timeout=");
    let ghost cut = text::pieces(query@, '&');
    let mut i: usize = 0;
    while i < params.len()
        invariant
            i <= params@.len(),
            cut == text::char_lists(params@),
            cut == text::pieces(query@, '&'),
            prefix@ == "timeout="@,
            forall|k: int| 0 <= k < i ==> !text::begins_with(#[trigger] cut[k], "timeout="@),
        decreases params.len() - i,
    {
        assert(cut[i as int] == params@[i as int]@);
        if text::starts_with(params[i].as_slice(), prefix.as_slice()) {
            return true;
        }
        i = i + 1;
    }
    false
}

/// The URI with a timeout of two seconds, unless it sets one itself.
pub fn uri_with_default_timeout(uri: &str) -> (r: String)
    ensures
        r@ == with_timeout(uri@),
{
    let chars = text::chars_of(uri);
    let parts = text::split(chars.as_slice(), '?');
    assert(text::char_lists(parts@).len() == parts@.len());
    if parts.len() >= 2 {
        assert(text::char_lists(parts@)[1] == parts@[1]@);
        if query_sets_timeout(&parts[1]) {
            return uri.to_string();
        }
        return text::concat2(uri, "&timeout=2000");
    }
    text::concat2(uri, "?timeout=2000")
}

/// Appending text without the separator extends the last piece.
proof fn lemma_pieces_append(a: Seq<char>, b: Seq<char>, sep: char)
    requires
        forall|i: int| 0 <= i < b.len() ==> #[trigger] b[i] != sep,
    ensures
        text::pieces(a + b, sep).len() == text::pieces(a, sep).len(),
        text::pieces(a + b, sep) == text::pieces(a, sep).update(
            text::pieces(a, sep).len() - 1,
            text::pieces(a, sep).last() + b,
        ),
    decreases b.len(),
{
    text::lemma_pieces_nonempty(a, sep);
    if b.len() == 0 {
        assert(a + b =~= a);
        assert(text::pieces(a, sep).last() + b =~= text::pieces(a, sep).last());
        assert(text::pieces(a + b, sep) =~= text::pieces(a, sep).update(
            text::pieces(a, sep).len() - 1,
            text::pieces(a, sep).last() + b,
        ));
    } else {
        lemma_pieces_append(a, b.drop_last(), sep);
        assert((a + b).drop_last() =~= a + b.drop_last());
        let mid = text::pieces(a + b.drop_last(), sep);
        assert(mid.last() == text::pieces(a, sep).last() + b.drop_last());
        assert((text::pieces(a, sep).last() + b.drop_last()).push(b.last()) =~= text::pieces(a, sep).last()
            + b);
        assert(text::pieces(a + b, sep) =~= text::pieces(a, sep).update(
            text::pieces(a, sep).len() - 1,
            text::pieces(a, sep).last() + b,
        ));
    }
}

/// Appending the separator opens an empty piece.
proof fn lemma_pieces_open(a: Seq<char>, sep: char)
    ensures
        text::pieces(a.push(sep), sep) == text::pieces(a, sep).push(Seq::empty()),
{
    assert(a.push(sep).drop_last() =~= a);
}

/// A URI with at most one question mark sets a timeout afterwards, and asking again changes
/// nothing.
pub proof fn law_timeout_is_set(uri: Seq<char>)
    requires
        text::pieces(uri, '?').len() <= 2,
    ensures
        text::pieces(with_timeout(uri), '?').len() == 2,
        sets_timeout(text::pieces(with_timeout(uri), '?')[1]),
        with_timeout(with_timeout(uri)) == with_timeout(uri),
        text::begins_with(with_timeout(uri), uri),
{
    reveal_strlit("timeout=");
    reveal_strlit("timeout=2000");
    reveal_strlit("?timeout=2000");
    reveal_strlit("&timeout=2000");
    text::lemma_pieces_nonempty(uri, '?');
    let parts = text::pieces(uri, '?');
    let value = "timeout=2000"@;
    assert(value.take(8) =~= "timeout="@);
    assert(text::begins_with(value, "timeout="@));
    if parts.len() < 2 {
        assert(with_timeout(uri) =~= uri.push('?') + value);
        lemma_pieces_open(uri, '?');
        lemma_pieces_append(uri.push('?'), value, '?');
        let after = text::pieces(with_timeout(uri), '?');
        assert(Seq::<char>::empty() + value =~= value);
        assert(after[1] == value);
        lemma_pieces_append(Seq::empty(), value, '&');
        assert(text::pieces(value, '&') =~= seq![value]);
        assert(text::pieces(after[1], '&')[0] == value);
        assert(sets_timeout(after[1]));
    } else if !sets_timeout(parts[1]) {
        assert(with_timeout(uri) =~= uri + "&timeout=2000"@);
        lemma_pieces_append(uri, "&timeout=2000"@, '?');
        let after = text::pieces(with_timeout(uri), '?');
        assert(after[1] == parts[1] + "&timeout=2000"@);
        assert(after[1] =~= parts[1].push('&') + value);
        lemma_pieces_open(parts[1], '&');
        lemma_pieces_append(parts[1].push('&'), value, '&');
        let params = text::pieces(after[1], '&');
        assert(Seq::<char>::empty() + value =~= value);
        assert(params.last() == value);
        assert(params[params.len() - 1] == value);
        assert(sets_timeout(after[1]));
    }
    assert(with_timeout(uri).take(uri.len() as int) =~= uri);
}

/// The URI with safelink switched off, for raw packets to the bootloader.
pub fn uri_without_safelink(uri: &str) -> (r: String)
    ensures
        r@ == uri@ + (if uri@.contains('?') { "&"@ } else { "?"@ }) + "safelink=0"@,
{
    let chars = text::chars_of(uri);
    let mut has_query = false;
    let mut i: usize = 0;
    while i < chars.len()
        invariant
            i <= chars@.len(),
            has_query == exists|k: int| 0 <= k < i && chars@[k] == '?',
        decreases chars.len() - i,
    {
        if chars[i] == '?' {
            has_query = true;
        }
        i = i + 1;
    }
    if has_query {
        text::concat3(uri, "&", "safelink=0")
    } else {
        text::concat3(uri, "?", "safelink=0")
    }
}

// ---------------------------------------------------------------------------
// Parsing
// ---------------------------------------------------------------------------

/// What a radio URI names: the radio, the channel and the address of the unit.
pub struct RadioTarget {
    pub radio: nat,
    pub channel: nat,
    pub address: Seq<nat>,
}

/// `text` with zeros before it up to ten characters.
pub open spec fn padded(text: Seq<char>) -> Seq<char> {
    if text.len() < 10 {
        Seq::new((10 - text.len()) as nat, |i: int| '0') + text
    } else {
        text
    }
}

/// The byte that two characters of an address stand for: two hexadecimal digits, or one with a
/// plus sign before it.
pub open spec fn address_byte(a: char, b: char) -> Option<nat> {
    match text::hex_value(b) {
        None => None,
        Some(low) => if a == '+' {
            Some(low)
        } else {
            match text::hex_value(a) {
                Some(high) => Some(high * 16 + low),
                None => None,
            }
        },
    }
}

/// The byte at pair `i` of a padded address.
pub open spec fn byte_at(p: Seq<char>, i: int) -> Option<nat> {
    address_byte(p[2 * i], p[2 * i + 1])
}

/// The five bytes of an address; characters after the first ten are not looked at.
pub open spec fn address_of(text: Seq<char>) -> Option<Seq<nat>> {
    let p = padded(text);
    if forall|i: int| 0 <= i < 5 ==> byte_at(p, i) is Some {
        Some(Seq::new(5, |i: int| byte_at(p, i)->0))
    } else {
        None
    }
}

/// The length of a character in UTF-8.
pub open spec fn utf8_len(c: char) -> nat {
    if (c as int) < 0x80 {
        1
    } else if (c as int) < 0x800 {
        2
    } else if (c as int) < 0x1_0000 {
        3
    } else {
        4
    }
}

/// The bytes of the address are cut two by two, up to the first pair that is no byte; some cut
/// would fall inside a character.
pub open spec fn cuts_character(text: Seq<char>) -> bool {
    let p = padded(text);
    exists|i: int|
        {
            &&& 0 <= i < 5
            &&& forall|j: int| 0 <= j < i ==> #[trigger] byte_at(p, j) is Some
            &&& #[trigger] byte_at(p, i) is None
            &&& utf8_len(p[2 * i]) > 2 || (utf8_len(p[2 * i]) == 1 && utf8_len(p[2 * i + 1]) > 1)
        }
}

/// The path of a radio URI cut at the slashes: what stands between `radio://` and the query.
pub open spec fn path_segments(uri: Seq<char>) -> Option<Seq<Seq<char>>> {
    if text::begins_with(uri, "radio://"@) {
        Some(text::pieces(text::pieces(uri.skip(8), '?')[0], '/'))
    } else {
        None
    }
}

/// What a URI names, if it is a radio URI.
pub open spec fn radio_target(uri: Seq<char>) -> Option<RadioTarget> {
    match path_segments(uri) {
        None => None,
        Some(parts) => if parts.len() != 4 {
            None
        } else {
            match (
                text::unsigned_of(parts[0], usize::MAX as nat),
                text::unsigned_of(parts[1], 255),
                address_of(parts[3]),
            ) {
                (Some(radio), Some(channel), Some(address)) => Some(
                    RadioTarget { radio, channel, address },
                ),
                _ => None,
            }
        },
    }
}

/// Appending text that opens or extends the query leaves the first piece as it is.
proof fn lemma_first_piece(a: Seq<char>, b: Seq<char>, sep: char)
    requires
        text::pieces(a, sep).len() >= 2 || (b.len() > 0 && b[0] == sep),
    ensures
        text::pieces(a + b, sep)[0] == text::pieces(a, sep)[0],
        text::pieces(a + b, sep).len() >= text::pieces(a, sep).len(),
    decreases b.len(),
{
    text::lemma_pieces_nonempty(a, sep);
    if b.len() == 0 {
        assert(a + b =~= a);
    } else if b.len() == 1 {
        assert((a + b).drop_last() =~= a);
    } else {
        lemma_first_piece(a, b.drop_last(), sep);
        lemma_first_opened(a, b.drop_last(), sep);
        assert((a + b).drop_last() =~= a + b.drop_last());
    }
}

/// The same text makes at least two pieces of them.
proof fn lemma_first_opened(a: Seq<char>, b: Seq<char>, sep: char)
    requires
        text::pieces(a, sep).len() >= 2 || (b.len() > 0 && b[0] == sep),
    ensures
        text::pieces(a + b, sep).len() >= 2,
    decreases b.len(),
{
    text::lemma_pieces_nonempty(a, sep);
    if b.len() == 0 {
        assert(a + b =~= a);
    } else {
        assert((a + b).drop_last() =~= a + b.drop_last());
        if b.len() > 1 || text::pieces(a, sep).len() >= 2 {
            lemma_first_opened(a, b.drop_last(), sep);
        } else {
            assert(a + b.drop_last() =~= a);
        }
    }
}

/// Setting a timeout does not change what a URI names.
pub proof fn law_timeout_keeps_target(uri: Seq<char>)
    ensures
        radio_target(with_timeout(uri)) == radio_target(uri),
        cuts_cleanly(with_timeout(uri)) == cuts_cleanly(uri),
{
    reveal_strlit("radio://");
    reveal_strlit("?timeout=2000");
    reveal_strlit("&timeout=2000");
    if with_timeout(uri) != uri {
        let tail = if text::pieces(uri, '?').len() < 2 {
            "?timeout=2000"@
        } else {
            "&timeout=2000"@
        };
        let path = uri.skip(8);
        let prefix = "radio://"@;
        assert(with_timeout(uri) == uri + tail);
        if text::begins_with(uri, prefix) {
            assert((uri + tail).take(8) =~= uri.take(8));
            assert((uri + tail).skip(8) =~= path + tail);
            assert forall|i: int| 0 <= i < 8 implies #[trigger] uri[i] != '?' by {
                assert(uri.take(8)[i] == prefix[i]);
            }
            lemma_same_count(uri, 8, '?');
            lemma_first_piece(path, tail, '?');
        } else if text::begins_with(uri + tail, prefix) {
            if uri.len() >= 8 {
                assert(uri.take(8) =~= (uri + tail).take(8));
            } else {
                assert((uri + tail).take(8)[uri.len() as int] == tail[0]);
                assert(prefix[uri.len() as int] == tail[0]);
            }
        }
    }
}

/// Leaving away a beginning without the separator leaves as many pieces.
proof fn lemma_same_count(s: Seq<char>, n: int, sep: char)
    requires
        0 <= n <= s.len(),
        forall|i: int| 0 <= i < n ==> #[trigger] s[i] != sep,
    ensures
        text::pieces(s.skip(n), sep).len() == text::pieces(s, sep).len(),
    decreases s.len(),
{
    if s.len() > n {
        assert(s.skip(n).drop_last() =~= s.drop_last().skip(n));
        lemma_same_count(s.drop_last(), n, sep);
        text::lemma_pieces_nonempty(s.drop_last(), sep);
    } else if n > 0 {
        assert(s.skip(n) =~= s.drop_last().skip(n - 1));
        lemma_same_count(s.drop_last(), n - 1, sep);
        text::lemma_pieces_nonempty(s.drop_last(), sep);
    }
}

/// No byte of the address of this URI is cut out of the middle of a character.
pub open spec fn cuts_cleanly(uri: Seq<char>) -> bool {
    match path_segments(uri) {
        None => true,
        Some(parts) => parts.len() == 4 && text::unsigned_of(parts[0], usize::MAX as nat) is Some
            && text::unsigned_of(parts[1], 255) is Some ==> !cuts_character(parts[3]),
    }
}

/// The parsed form of what a URI names.
pub open spec fn is_target(r: Option<(usize, u8, [u8; 5])>, target: Option<RadioTarget>) -> bool {
    match (r, target) {
        (Some(r), Some(t)) => {
            &&& r.0 == t.radio
            &&& r.1 == t.channel
            &&& t.address.len() == 5
            &&& forall|i: int| 0 <= i < 5 ==> (#[trigger] r.2@[i]) as nat == t.address[i]
        },
        (None, None) => true,
        _ => false,
    }
}

fn pad_address(text: &Vec<char>) -> (p: Vec<char>)
    ensures
        p@ == padded(text@),
        p@.len() >= 10,
{
    let mut p: Vec<char> = Vec::new();
    if text.len() < 10 {
        let missing: usize = 10 - text.len();
        let mut i: usize = 0;
        while i < missing
            invariant
                i <= missing,
                p@.len() == i,
                forall|k: int| 0 <= k < i ==> p@[k] == '0',
            decreases missing - i,
        {
            p.push('0');
            i = i + 1;
        }
    }
    let ghost zeros = p@;
    let mut k: usize = 0;
    while k < text.len()
        invariant
            k <= text@.len(),
            p@ == zeros + text@.take(k as int),
        decreases text.len() - k,
    {
        p.push(text[k]);
        k = k + 1;
        assert(p@ =~= zeros + text@.take(k as int));
    }
    assert(p@ =~= padded(text@));
    p
}

fn parse_address_byte(a: char, b: char) -> (r: Option<u8>)
    ensures
        r is Some <==> address_byte(a, b) is Some,
        r matches Some(v) ==> address_byte(a, b) == Some(v as nat),
{
    match text::parse_hex_digit(b) {
        None => None,
        Some(low) => if a == '+' {
            Some(low)
        } else {
            match text::parse_hex_digit(a) {
                Some(high) => Some(high * 16 + low),
                None => None,
            }
        },
    }
}

fn parse_address(text: &Vec<char>) -> (r: Option<[u8; 5]>)
    ensures
        r is Some <==> address_of(text@) is Some,
        r matches Some(bytes) ==> forall|i: int|
            0 <= i < 5 ==> (#[trigger] bytes@[i]) as nat == address_of(text@)->0[i],
{
    let p = pad_address(text);
    let ghost pp = padded(text@);
    let mut bytes: Vec<u8> = Vec::new();
    let mut i: usize = 0;
    while i < 5
        invariant
            i <= 5,
            p@ == pp,
            p@.len() >= 10,
            pp == padded(text@),
            bytes@.len() == i,
            forall|k: int|
                0 <= k < i ==> byte_at(pp, k) == Some((#[trigger] bytes@[k]) as nat),
        decreases 5 - i,
    {
        match parse_address_byte(p[2 * i], p[2 * i + 1]) {
            None => {
                assert(byte_at(pp, i as int) is None);
                return None;
            },
            Some(v) => bytes.push(v),
        }
        i = i + 1;
    }
    assert forall|k: int| 0 <= k < 5 implies byte_at(pp, k) is Some by {
        assert(byte_at(pp, k) == Some(bytes@[k] as nat));
    }
    let address: [u8; 5] = [bytes[0], bytes[1], bytes[2], bytes[3], bytes[4]];
    assert forall|k: int| 0 <= k < 5 implies (#[trigger] address@[k]) as nat == address_of(
        text@,
    )->0[k] by {
        assert(address@[k] == bytes@[k]);
    }
    Some(address)
}

fn cut_path(uri: &str) -> (r: Option<Vec<Vec<char>>>)
    ensures
        r is Some <==> path_segments(uri@) is Some,
        r matches Some(parts) ==> text::char_lists(parts@) == path_segments(uri@)->0,
{
    let chars = text::chars_of(uri);
    let scheme = text::chars_of("radio://");
    proof {
        reveal_strlit("radio://");
    }
    if !text::starts_with(chars.as_slice(), scheme.as_slice()) {
        return None;
    }
    let mut rest: Vec<char> = Vec::new();
    let mut i: usize = 8;
    while i < chars.len()
        invariant
            8 <= i <= chars@.len(),
            rest@ == chars@.subrange(8, i as int),
        decreases chars.len() - i,
    {
        rest.push(chars[i]);
        i = i + 1;
        assert(rest@ =~= chars@.subrange(8, i as int));
    }
    assert(rest@ =~= uri@.skip(8));
    let halves = text::split(rest.as_slice(), '?');
    assert(text::char_lists(halves@)[0] == halves@[0]@);
    Some(text::split(halves[0].as_slice(), '/'))
}

fn utf8_length(c: char) -> (n: u8)
    ensures
        n == utf8_len(c),
{
    let code: u32 = c as u32;
    if code < 0x80 {
        1
    } else if code < 0x800 {
        2
    } else if code < 0x1_0000 {
        3
    } else {
        4
    }
}

fn address_can_be_cut(text: &Vec<char>) -> (r: bool)
    ensures
        r == !cuts_character(text@),
{
    let p = pad_address(text);
    let ghost pp = padded(text@);
    let mut i: usize = 0;
    while i < 5
        invariant
            i <= 5,
            p@ == pp,
            p@.len() >= 10,
            pp == padded(text@),
            forall|k: int| 0 <= k < i ==> #[trigger] byte_at(pp, k) is Some,
        decreases 5 - i,
    {
        let a = p[2 * i];
        let b = p[2 * i + 1];
        if parse_address_byte(a, b).is_none() {
            assert(byte_at(pp, i as int) is None);
            let first: u8 = utf8_length(a);
            return !(first > 2 || (first == 1 && utf8_length(b) > 1));
        }
        assert(byte_at(pp, i as int) is Some);
        i = i + 1;
    }
    true
}

/// Whether no byte of the address of this URI is cut out of the middle of a character.
pub fn can_be_cut(uri: &str) -> (r: bool)
    ensures
        r == cuts_cleanly(uri@),
{
    let parts = match cut_path(uri) {
        Some(parts) => parts,
        None => {
            return true;
        },
    };
    let ghost cut = text::char_lists(parts@);
    assert(cut.len() == parts@.len());
    if parts.len() != 4 {
        return true;
    }
    assert(cut[0] == parts@[0]@ && cut[1] == parts@[1]@ && cut[3] == parts@[3]@);
    let radio = text::parse_unsigned(parts[0].as_slice(), usize::MAX as u64);
    let channel = text::parse_unsigned(parts[1].as_slice(), 255);
    radio.is_none() || channel.is_none() || address_can_be_cut(&parts[3])
}

/// Reads a radio URI: the radio, the channel and the address. The rate is not looked at, nor
/// are parameters.
pub fn parse_radio_uri(uri: &str) -> (r: Option<(usize, u8, [u8; 5])>)
    requires
        cuts_cleanly(uri@),
    ensures
        is_target(r, radio_target(uri@)),
{
    let parts = match cut_path(uri) {
        Some(parts) => parts,
        None => {
            return None;
        },
    };
    let ghost cut = text::char_lists(parts@);
    assert(cut.len() == parts@.len());
    if parts.len() != 4 {
        return None;
    }
    assert(cut[0] == parts@[0]@ && cut[1] == parts@[1]@ && cut[3] == parts@[3]@);
    let radio: usize = match text::parse_unsigned(parts[0].as_slice(), usize::MAX as u64) {
        Some(v) => v as usize,
        None => {
            return None;
        },
    };
    let channel: u8 = match text::parse_unsigned(parts[1].as_slice(), 255) {
        Some(v) => v as u8,
        None => {
            return None;
        },
    };
    match parse_address(&parts[3]) {
        Some(address) => Some((radio, channel, address)),
        None => None,
    }
}

// ---------------------------------------------------------------------------
// Channels in use
// ---------------------------------------------------------------------------

/// A channel of a radio, in the order of radios and then channels.
pub open spec fn channel_less(a: (usize, u8), b: (usize, u8)) -> bool {
    a.0 < b.0 || (a.0 == b.0 && a.1 < b.1)
}

/// `list` ascends strictly: nothing occurs twice.
pub open spec fn channels_ascend(list: Seq<(usize, u8)>) -> bool {
    forall|i: int, j: int|
        0 <= i < j < list.len() ==> channel_less(#[trigger] list[i], #[trigger] list[j])
}

/// The URI names this channel of this radio.
pub open spec fn names_channel(uri: Seq<char>, c: (usize, u8)) -> bool {
    radio_target(uri) is Some && radio_target(uri)->0.radio == c.0 && radio_target(uri)->0.channel
        == c.1
}

/// `list` holds exactly the channels that the URIs name.
pub open spec fn holds_channels(list: Seq<(usize, u8)>, uris: Seq<String>) -> bool {
    forall|c: (usize, u8)|
        #[trigger] list.contains(c) <==> exists|k: int|
            0 <= k < uris.len() && names_channel((#[trigger] uris[k])@, c)
}

fn insert_channel(list: &mut Vec<(usize, u8)>, c: (usize, u8))
    requires
        channels_ascend(old(list)@),
    ensures
        channels_ascend(final(list)@),
        forall|d: (usize, u8)| #[trigger]
            final(list)@.contains(d) <==> old(list)@.contains(d) || d == c,
{
    let ghost before = list@;
    let mut at: usize = 0;
    while at < list.len() && (list[at].0 < c.0 || (list[at].0 == c.0 && list[at].1 < c.1))
        invariant
            at <= list@.len(),
            list@ == before,
            channels_ascend(before),
            forall|k: int| 0 <= k < at ==> channel_less(#[trigger] before[k], c),
        decreases list.len() - at,
    {
        at = at + 1;
    }
    if at < list.len() && list[at].0 == c.0 && list[at].1 == c.1 {
        assert(before[at as int] == c);
        return ;
    }
    list.insert(at, c);
    proof {
        let after = list@;
        assert(after[at as int] == c);
        assert forall|i: int, j: int| 0 <= i < j < after.len() implies channel_less(
            #[trigger] after[i],
            #[trigger] after[j],
        ) by {
            if at < before.len() {
                assert(channel_less(c, before[at as int]));
            }
            if i == at && j > at {
                assert(after[j] == before[j - 1]);
                if j - 1 > at {
                    assert(channel_less(before[at as int], before[j - 1]));
                }
            } else if j == at {
                assert(after[i] == before[i]);
            } else {
                let oi = if i < at { i } else { i - 1 };
                let oj = if j < at { j } else { j - 1 };
                assert(after[i] == before[oi]);
                assert(after[j] == before[oj]);
            }
        }
        assert forall|d: (usize, u8)| #[trigger] after.contains(d) <==> before.contains(d) || d
            == c by {
            if before.contains(d) {
                let k = choose|k: int| 0 <= k < before.len() && before[k] == d;
                let nk = if k < at { k } else { k + 1 };
                assert(after[nk] == d);
            }
            if after.contains(d) && d != c {
                let k = choose|k: int| 0 <= k < after.len() && after[k] == d;
                let ok = if k < at { k } else { k - 1 };
                assert(before[ok] == d);
            }
        }
    }
}

/// The channels that the units use, each once, by radio and channel.
pub fn radio_channels(uris: &Vec<String>) -> (list: Vec<(usize, u8)>)
    requires
        forall|k: int| 0 <= k < uris@.len() ==> cuts_cleanly((#[trigger] uris@[k])@),
    ensures
        channels_ascend(list@),
        holds_channels(list@, uris@),
{
    let mut list: Vec<(usize, u8)> = Vec::new();
    let mut i: usize = 0;
    while i < uris.len()
        invariant
            i <= uris@.len(),
            forall|k: int| 0 <= k < uris@.len() ==> cuts_cleanly((#[trigger] uris@[k])@),
            channels_ascend(list@),
            holds_channels(list@, uris@.take(i as int)),
        decreases uris.len() - i,
    {
        let ghost done = uris@.take(i as int);
        let ghost next = uris@.take(i + 1);
        let ghost before = list@;
        let parsed = parse_radio_uri(uris[i].as_str());
        if let Some((radio, channel, _address)) = parsed {
            insert_channel(&mut list, (radio, channel));
        }
        assert forall|c: (usize, u8)| #[trigger] list@.contains(c) <==> exists|k: int|
            0 <= k < next.len() && names_channel((#[trigger] next[k])@, c) by {
            assert(next[i as int] == uris@[i as int]);
            if before.contains(c) {
                let k = choose|k: int| 0 <= k < done.len() && names_channel((#[trigger] done[k])@, c);
                assert(next[k] == done[k]);
            }
            if exists|k: int| 0 <= k < next.len() && names_channel((#[trigger] next[k])@, c) {
                let k = choose|k: int| 0 <= k < next.len() && names_channel((#[trigger] next[k])@, c);
                if k < i {
                    assert(done[k] == next[k]);
                }
            }
        }
        i = i + 1;
    }
    assert(uris@.take(uris@.len() as int) =~= uris@);
    list
}

/// `crazyradio::Channel::from_number` followed by the conversion of the channel to its number:
/// the radio has the channels 0 to 125, and a channel keeps its number.
#[verifier::external_body]
fn channel_from_number(channel: u8) -> (r: Option<u8>)
    ensures
        r == (if channel < 126 {
            Some(channel)
        } else {
            None
        }),
{
    crazyradio::Channel::from_number(channel).ok().map(|c| c.into())
}

/// Whether the radio has this channel.
pub fn is_radio_channel(channel: u8) -> (r: bool)
    ensures
        r == (channel < 126),
{
    channel_from_number(channel).is_some()
}

/// The last `k` bytes of a number, the highest first.
pub open spec fn bytes_of_number(n: nat, k: nat) -> Seq<nat>
    decreases k,
{
    if k == 0 {
        Seq::empty()
    } else {
        bytes_of_number(n / 256, (k - 1) as nat).push(n % 256)
    }
}

proof fn lemma_hex_bytes(n: nat, k: nat, upper: bool)
    ensures
        text::hex(n, 2 * k, upper).len() == 2 * k,
        bytes_of_number(n, k).len() == k,
        forall|i: int|
            0 <= i < k ==> #[trigger] byte_at(text::hex(n, 2 * k, upper), i) == Some(
                bytes_of_number(n, k)[i],
            ),
        forall|i: int|
            0 <= i < 2 * k ==> text::hex_value(#[trigger] text::hex(n, 2 * k, upper)[i]) is Some,
    decreases k,
{
    if k > 0 {
        let m = (k - 1) as nat;
        lemma_hex_bytes(n / 256, m, upper);
        let all = text::hex(n, 2 * k, upper);
        let before = text::hex(n / 256, 2 * m, upper);
        text::law_hex_digit(n % 16, upper);
        text::law_hex_digit(n / 16 % 16, upper);
        assert(n / 16 / 16 == n / 256);
        assert(text::hex(n / 16, (2 * k - 1) as nat, upper) == before.push(
            text::hex_digit(n / 16 % 16, upper),
        ));
        assert(all == before.push(text::hex_digit(n / 16 % 16, upper)).push(
            text::hex_digit(n % 16, upper),
        ));
        assert(n / 16 % 16 * 16 + n % 16 == n % 256);
        assert forall|i: int| 0 <= i < k implies #[trigger] byte_at(all, i) == Some(
            bytes_of_number(n, k)[i],
        ) by {
            if i < m {
                assert(all[2 * i] == before[2 * i]);
                assert(all[2 * i + 1] == before[2 * i + 1]);
                assert(byte_at(before, i) == Some(bytes_of_number(n / 256, m)[i]));
            } else {
                assert(all[2 * i] == text::hex_digit(n / 16 % 16, upper));
                assert(all[2 * i + 1] == text::hex_digit(n % 16, upper));
                assert(all[2 * i] != '+');
            }
        }
        assert forall|i: int| 0 <= i < 2 * k implies text::hex_value(#[trigger] all[i]) is Some by {
            if i < 2 * m {
                assert(all[i] == before[i]);
            }
        }
    }
}

/// An address of ten hexadecimal digits of either case stands for its five bytes, the highest
/// first.
pub proof fn law_address_read(n: nat, upper: bool)
    ensures
        address_of(text::hex(n, 10, upper)) == Some(bytes_of_number(n, 5)),
{
    lemma_hex_bytes(n, 5, upper);
    let p = text::hex(n, 10, upper);
    assert(padded(p) == p);
    assert forall|i: int| 0 <= i < 5 implies byte_at(p, i) is Some by {}
    assert(address_of(p)->0 =~= bytes_of_number(n, 5));
}

/// Zeros before a short address make no difference, up to ten characters; what follows the tenth
/// character of an address makes none either.
pub proof fn law_address_padded(s: Seq<char>, tail: Seq<char>)
    ensures
        padded(s).len() >= 10,
        padded(s).skip(padded(s).len() - s.len()) == s,
        forall|i: int| 0 <= i < padded(s).len() - s.len() ==> #[trigger] padded(s)[i] == '0',
        s.len() < 10 ==> padded(s).len() == 10 && address_of(seq!['0'] + s) == address_of(s),
        s.len() >= 10 ==> address_of(s + tail) == address_of(s),
{
    let p = padded(s);
    assert(p.skip(p.len() - s.len()) =~= s);
    if s.len() < 10 {
        assert(padded(seq!['0'] + s) =~= padded(s));
    } else {
        let q = s + tail;
        assert forall|i: int| 0 <= i < 5 implies byte_at(q, i) == byte_at(s, i) by {}
        if forall|i: int| 0 <= i < 5 ==> byte_at(s, i) is Some {
            assert forall|i: int| 0 <= i < 5 implies byte_at(q, i) is Some by {
                assert(byte_at(s, i) is Some);
            }
            assert(address_of(q)->0 =~= address_of(s)->0);
        } else {
            let i = choose|i: int| 0 <= i < 5 && !(#[trigger] byte_at(s, i) is Some);
            assert(!(byte_at(q, i) is Some));
        }
    }
}

/// The text holds no slash and no question mark.
pub open spec fn plain(s: Seq<char>) -> bool {
    forall|i: int| 0 <= i < s.len() ==> #[trigger] s[i] != '/' && s[i] != '?'
}

proof fn lemma_no_separator(s: Seq<char>, sep: char)
    requires
        forall|i: int| 0 <= i < s.len() ==> #[trigger] s[i] != sep,
    ensures
        text::pieces(s, sep) == seq![s],
{
    let none = Seq::<char>::empty();
    lemma_pieces_append(none, s, sep);
    assert(none + s =~= s);
    assert(text::pieces(none, sep) =~= seq![none]);
    assert(text::pieces(s, sep) =~= seq![s]);
}

/// The path of a radio URI.
pub open spec fn path_of(radio: nat, channel: nat, rate: Seq<char>, address: Seq<char>) -> Seq<
    char,
> {
    (text::decimal(radio).push('/') + text::decimal(channel)).push('/') + rate + seq!['/'] + address
}

proof fn lemma_path_pieces(radio: nat, channel: nat, rate: Seq<char>, address: Seq<char>)
    requires
        plain(rate),
        plain(address),
    ensures
        text::pieces(path_of(radio, channel, rate, address), '/') == seq![
            text::decimal(radio),
            text::decimal(channel),
            rate,
            address,
        ],
        forall|i: int|
            0 <= i < path_of(radio, channel, rate, address).len() ==> #[trigger] path_of(
                radio,
                channel,
                rate,
                address,
            )[i] != '?',
{
    let d = text::decimal(radio);
    let e = text::decimal(channel);
    text::lemma_decimal_digits(radio);
    text::lemma_decimal_digits(channel);
    assert forall|i: int| 0 <= i < d.len() implies #[trigger] d[i] != '/' && d[i] != '?' by {
        assert(text::is_digit(d[i]));
    }
    assert forall|i: int| 0 <= i < e.len() implies #[trigger] e[i] != '/' && e[i] != '?' by {
        assert(text::is_digit(e[i]));
    }
    let none = Seq::<char>::empty();
    lemma_no_separator(d, '/');
    lemma_pieces_open(d, '/');
    let a = d.push('/');
    assert(text::pieces(a, '/') =~= seq![d, none]);
    lemma_pieces_append(a, e, '/');
    assert(none + e =~= e);
    let b = a + e;
    assert(text::pieces(b, '/') =~= seq![d, e]);
    lemma_pieces_open(b, '/');
    let c = b.push('/');
    assert(text::pieces(c, '/') =~= seq![d, e, none]);
    lemma_pieces_append(c, rate, '/');
    assert(none + rate =~= rate);
    let f = c + rate;
    assert(text::pieces(f, '/') =~= seq![d, e, rate]);
    lemma_pieces_open(f, '/');
    let g = f.push('/');
    assert(text::pieces(g, '/') =~= seq![d, e, rate, none]);
    lemma_pieces_append(g, address, '/');
    assert(none + address =~= address);
    let h = g + address;
    assert(text::pieces(h, '/') =~= seq![d, e, rate, address]);
    assert(path_of(radio, channel, rate, address) =~= h);
}

/// A radio URI that is written from a radio, a channel, a rate and an address of ten digits names
/// just these, whatever its parameters. A channel beyond 255 is refused.
pub proof fn law_target_read(
    radio: nat,
    channel: nat,
    rate: Seq<char>,
    n: nat,
    upper: bool,
    query: Seq<char>,
)
    requires
        radio <= usize::MAX,
        plain(rate),
    ensures
        ({
            let uri = "radio://"@ + path_of(radio, channel, rate, text::hex(n, 10, upper));
            let named = if channel <= 255 {
                Some(RadioTarget { radio, channel, address: bytes_of_number(n, 5) })
            } else {
                None
            };
            radio_target(uri) == named && radio_target(uri + seq!['?'] + query) == named
        }),
{
    let address = text::hex(n, 10, upper);
    let path = path_of(radio, channel, rate, address);
    let uri = "radio://"@ + path;
    lemma_hex_bytes(n, 5, upper);
    assert forall|i: int| 0 <= i < address.len() implies #[trigger] address[i] != '/' && address[i]
        != '?' by {
        assert(text::hex_value(address[i]) is Some);
    }
    lemma_path_pieces(radio, channel, rate, address);
    law_address_read(n, upper);
    text::law_decimal_read_back(radio, usize::MAX as nat);
    text::law_decimal_read_back(channel, 255);
    reveal_strlit("radio://");
    assert(uri.skip(8) =~= path);
    assert(uri.take(8) =~= "radio://"@);
    lemma_no_separator(path, '?');
    let long = uri + seq!['?'] + query;
    assert(long.skip(8) =~= path + (seq!['?'] + query));
    assert(long.take(8) =~= "radio://"@);
    lemma_first_piece(path, seq!['?'] + query, '?');
}

/// A character takes more bytes in UTF-8 the higher its number is: one up to 127, two up to 2047,
/// three up to 65535 and four beyond.
pub proof fn law_utf8_lengths(c: char)
    ensures
        utf8_len(c) <= 1 <==> (c as int) <= 127,
        utf8_len(c) <= 2 <==> (c as int) <= 2047,
        utf8_len(c) <= 3 <==> (c as int) <= 65535,
        1 <= utf8_len(c) <= 4,
{
}

/// Channels are ordered by their radio, and those of one radio by their number.
pub proof fn law_channel_order(a: (usize, u8), b: (usize, u8))
    ensures
        channel_less(a, b) || channel_less(b, a) || a == b,
        !(channel_less(a, b) && channel_less(b, a)),
        a.0 < b.0 ==> channel_less(a, b),
{
}

/// An address is refused if any of its ten characters is neither a hexadecimal digit nor a plus
/// sign before one; every address that is read has five bytes.
pub proof fn law_address_refused(s: Seq<char>, i: int)
    ensures
        address_of(s) matches Some(bytes) ==> bytes.len() == 5 && (forall|k: int|
            0 <= k < 5 ==> byte_at(padded(s), k) == Some(#[trigger] bytes[k])),
        s.len() == 10 && 0 <= i < 10 && text::hex_value(s[i]) is None && s[i] != '+' ==> address_of(
            s,
        ) is None,
        s.len() == 10 && 0 <= i < 5 && s[2 * i + 1] == '+' ==> address_of(s) is None,
{
    let p = padded(s);
    if address_of(s) is Some {
        assert forall|k: int| 0 <= k < 5 implies byte_at(p, k) is Some by {}
        assert(byte_at(p, 0) is Some && byte_at(p, 1) is Some && byte_at(p, 2) is Some && byte_at(
            p,
            3,
        ) is Some && byte_at(p, 4) is Some);
        if s.len() == 10 {
            assert(byte_at(s, i / 2) is Some || !(0 <= i < 10));
            assert(byte_at(s, i) is Some || !(0 <= i < 5));
        }
    }
}

/// A URI names the channel of the radio that stands in it, and no other; one that is no radio URI
/// names none.
pub proof fn law_names_channel(uri: Seq<char>, c: (usize, u8), d: (usize, u8))
    ensures
        names_channel(uri, c) && names_channel(uri, d) ==> c == d,
        radio_target(uri) is None ==> !names_channel(uri, c),
        radio_target(uri) matches Some(t) ==> (t.radio == c.0 && t.channel == c.1 <==> names_channel(
            uri,
            c,
        )),
{
}

} // verus!
