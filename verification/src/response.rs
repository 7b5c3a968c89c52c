//! Responses and their encoding as HTTP messages.

use vstd::prelude::*;
use vstd::utf8::{encode_utf8, is_ascii_chars_encode_utf8};

use aquatic_http_protocol::common::InfoHash as EncodedInfoHash;
use aquatic_http_protocol::response::{
    AnnounceResponse as EncodedAnnounce, FailureResponse as EncodedFailure,
    ResponsePeer as EncodedPeer, ResponsePeerListV4, ResponsePeerListV6,
    ScrapeResponse as EncodedScrape, ScrapeStatistics as EncodedStatistics,
};

use crate::connection::ConnectionError;
use crate::files::{ascending, entry_views, ScrapeFiles, ScrapeStatistics};
use crate::http::option_text;
use crate::protocol::InfoHash;

verus! {

/// A peer with an IPv4 address.
#[derive(Clone, Copy, Debug, PartialEq, Eq)]
pub struct ResponsePeerV4 {
    pub octets: [u8; 4],
    pub port: u16,
}

/// A peer with an IPv6 address.
#[derive(Clone, Copy, Debug, PartialEq, Eq)]
pub struct ResponsePeerV6 {
    pub octets: [u8; 16],
    pub port: u16,
}

/// The answer to an announce request.
#[derive(Clone, Debug, PartialEq, Eq)]
pub struct AnnounceResponse {
    pub announce_interval: usize,
    pub complete: usize,
    pub incomplete: usize,
    pub peers: Vec<ResponsePeerV4>,
    pub peers6: Vec<ResponsePeerV6>,
    pub warning_message: Option<String>,
}

/// The answer to a scrape request.
#[derive(Debug, PartialEq, Eq)]
pub struct ScrapeResponse {
    pub files: ScrapeFiles,
}

/// The answer to a request that is not served.
#[derive(Clone, Debug, PartialEq, Eq)]
pub struct FailureResponse {
    pub failure_reason: String,
}

#[derive(Debug, PartialEq, Eq)]
pub enum Response {
    Announce(AnnounceResponse),
    Scrape(ScrapeResponse),
    Failure(FailureResponse),
}

/// What a peer in an announce response stands for.
pub struct ResponsePeerView {
    pub octets: Seq<u8>,
    pub port: u16,
}

/// What an [`AnnounceResponse`] stands for.
pub struct AnnounceResponseView {
    pub announce_interval: nat,
    pub complete: nat,
    pub incomplete: nat,
    pub peers: Seq<ResponsePeerView>,
    pub peers6: Seq<ResponsePeerView>,
    pub warning_message: Option<Seq<char>>,
}

/// What a [`Response`] stands for.
pub enum ResponseView {
    Announce(AnnounceResponseView),
    Scrape(Seq<(Seq<u8>, ScrapeStatistics)>),
    Failure(Seq<char>),
}

impl View for AnnounceResponse {
    type V = AnnounceResponseView;

    open spec fn view(&self) -> AnnounceResponseView {
        AnnounceResponseView {
            announce_interval: self.announce_interval as nat,
            complete: self.complete as nat,
            incomplete: self.incomplete as nat,
            peers: self.peers@.map_values(
                |peer: ResponsePeerV4| ResponsePeerView { octets: peer.octets@, port: peer.port },
            ),
            peers6: self.peers6@.map_values(
                |peer: ResponsePeerV6| ResponsePeerView { octets: peer.octets@, port: peer.port },
            ),
            warning_message: option_text(self.warning_message),
        }
    }
}

impl View for ScrapeResponse {
    type V = Seq<(Seq<u8>, ScrapeStatistics)>;

    open spec fn view(&self) -> Seq<(Seq<u8>, ScrapeStatistics)> {
        self.files@
    }
}

impl View for FailureResponse {
    type V = Seq<char>;

    open spec fn view(&self) -> Seq<char> {
        self.failure_reason@
    }
}

impl View for Response {
    type V = ResponseView;

    open spec fn view(&self) -> ResponseView {
        match *self {
            Response::Announce(response) => ResponseView::Announce(response@),
            Response::Scrape(response) => ResponseView::Scrape(response@),
            Response::Failure(response) => ResponseView::Failure(response@),
        }
    }
}

impl FailureResponse {
    pub fn new(reason: &str) -> (response: Self)
        ensures
            response@ == reason@,
    {
        FailureResponse { failure_reason: reason.to_owned() }
    }
}

/// The decimal digits of a number, as ASCII characters.
pub open spec fn decimal_digits(number: nat) -> Seq<u8>
    decreases number,
{
    if number < 10 {
        seq![(48 + number) as u8]
    } else {
        decimal_digits(number / 10).push((48 + number % 10) as u8)
    }
}

/// A string in bencoding: its length in bytes, a colon, and the bytes.
pub open spec fn bencoded_string(bytes: Seq<u8>) -> Seq<u8> {
    decimal_digits(bytes.len()) + encode_utf8(":"@) + bytes
}

/// The compact form of a list of peers: address and port of each, in network
/// byte order.
pub open spec fn compact_peers(peers: Seq<ResponsePeerView>) -> Seq<u8>
    decreases peers.len(),
{
    if peers.len() == 0 {
        Seq::empty()
    } else {
        compact_peers(peers.drop_last()) + peers.last().octets + seq![
            (peers.last().port / 256) as u8,
            (peers.last().port % 256) as u8,
        ]
    }
}

/// The bencoding of an announce response.
pub open spec fn announce_bytes(response: AnnounceResponseView) -> Seq<u8> {
    encode_utf8("d8:completei"@) + decimal_digits(response.complete) + encode_utf8(
        "e10:incompletei"@,
    ) + decimal_digits(response.incomplete) + encode_utf8("e8:intervali"@) + decimal_digits(
        response.announce_interval,
    ) + encode_utf8("e5:peers"@) + bencoded_string(compact_peers(response.peers)) + encode_utf8(
        "6:peers6"@,
    ) + bencoded_string(compact_peers(response.peers6)) + (match response.warning_message {
        Some(message) => encode_utf8("15:warning message"@) + bencoded_string(encode_utf8(message)),
        None => Seq::<u8>::empty(),
    }) + encode_utf8("e"@)
}

/// The bencoding of the entries of a scrape response. The number of completed
/// downloads is given as zero, whatever it is.
pub open spec fn scrape_entry_bytes(entries: Seq<(Seq<u8>, ScrapeStatistics)>) -> Seq<u8>
    decreases entries.len(),
{
    if entries.len() == 0 {
        Seq::empty()
    } else {
        let (hash, statistics) = entries.last();
        scrape_entry_bytes(entries.drop_last()) + encode_utf8("20:"@) + hash + encode_utf8(
            "d8:completei"@,
        ) + decimal_digits(statistics.complete as nat) + encode_utf8(
            "e10:downloadedi0e10:incompletei"@,
        ) + decimal_digits(statistics.incomplete as nat) + encode_utf8("ee"@)
    }
}

/// The bencoding of a scrape response.
pub open spec fn scrape_bytes(entries: Seq<(Seq<u8>, ScrapeStatistics)>) -> Seq<u8> {
    encode_utf8("d5:filesd"@) + scrape_entry_bytes(entries) + encode_utf8("ee"@)
}

/// The bencoding of a failure response.
pub open spec fn failure_bytes(reason: Seq<char>) -> Seq<u8> {
    encode_utf8("d14:failure reason"@) + bencoded_string(encode_utf8(reason)) + encode_utf8("e"@)
}

/// The bencoding of a response.
pub open spec fn response_bytes(response: ResponseView) -> Seq<u8> {
    match response {
        ResponseView::Announce(response) => announce_bytes(response),
        ResponseView::Scrape(entries) => scrape_bytes(entries),
        ResponseView::Failure(reason) => failure_bytes(reason),
    }
}

/// Calls `aquatic_http_protocol::response::AnnounceResponse::write_bytes` on a
/// vector, to which it appends the bencoding of the response. Writing to a vector
/// does not fail.
#[verifier::external_body]
fn write_announce(response: &AnnounceResponse, output: &mut Vec<u8>) -> (result: Result<
    usize,
    String,
>)
    ensures
        final(output)@ == old(output)@ + announce_bytes(response@),
        result is Ok,
        result->Ok_0 == announce_bytes(response@).len(),
{
    EncodedAnnounce {
        announce_interval: response.announce_interval,
        complete: response.complete,
        incomplete: response.incomplete,
        peers: ResponsePeerListV4(
            response.peers.iter().map(|p| EncodedPeer { ip_address: p.octets.into(), port: p.port }).collect(),
        ),
        peers6: ResponsePeerListV6(
            response.peers6.iter().map(|p| EncodedPeer { ip_address: p.octets.into(), port: p.port }).collect(),
        ),
        warning_message: response.warning_message.clone(),
    }.write_bytes(output).map_err(|err| err.to_string())
}

/// Calls `aquatic_http_protocol::response::ScrapeResponse::write_bytes` on a
/// vector, to which it appends the bencoding of the entries in the order of their
/// info hashes. Writing to a vector does not fail.
#[verifier::external_body]
fn write_scrape(
    entries: &Vec<(InfoHash, ScrapeStatistics)>,
    output: &mut Vec<u8>,
) -> (result: Result<usize, String>)
    requires
        ascending(entry_views(entries@)),
    ensures
        final(output)@ == old(output)@ + scrape_bytes(entry_views(entries@)),
        result is Ok,
        result->Ok_0 == scrape_bytes(entry_views(entries@)).len(),
{
    let files = entries.iter().map(|(hash, statistics)| (
        EncodedInfoHash(hash.0),
        EncodedStatistics {
            complete: statistics.complete,
            incomplete: statistics.incomplete,
            downloaded: statistics.downloaded,
        },
    )).collect();
    EncodedScrape { files }.write_bytes(output).map_err(|err| err.to_string())
}

/// Calls `aquatic_http_protocol::response::FailureResponse::write_bytes` on a
/// vector, to which it appends the bencoding of the response. Writing to a vector
/// does not fail.
#[verifier::external_body]
fn write_failure(response: &FailureResponse, output: &mut Vec<u8>) -> (result: Result<
    usize,
    String,
>)
    ensures
        final(output)@ == old(output)@ + failure_bytes(response@),
        result is Ok,
        result->Ok_0 == failure_bytes(response@).len(),
{
    EncodedFailure::new(response.failure_reason.clone()).write_bytes(output).map_err(
        |err| err.to_string(),
    )
}

impl Response {
    /// Appends the bencoding of the response to `output` and gives its length.
    pub fn write_bytes(&self, output: &mut Vec<u8>) -> (result: Result<usize, String>)
        ensures
            final(output)@ == old(output)@ + response_bytes(self@),
            result matches Ok(written) && written == response_bytes(self@).len(),
    {
        match self {
            Response::Announce(response) => write_announce(response, output),
            Response::Scrape(response) => write_scrape(response.files.entries(), output),
            Response::Failure(response) => write_failure(response, output),
        }
    }
}

/// Calls `itoa::Buffer::format`, which gives the decimal digits of the number.
#[verifier::external_body]
fn format_number(number: usize) -> (digits: Vec<u8>)
    ensures
        digits@ == decimal_digits(number as nat),
{
    itoa::Buffer::new().format(number).as_bytes().to_vec()
}

/// The size that a response buffer is created with.
pub const RESPONSE_BUFFER_SIZE: usize = 4096;

pub const RESPONSE_HEADER_A: &'static str = "HTTP/1.1 200 OK\r\nContent-Length: ";

pub const RESPONSE_HEADER_B: &'static str = "        ";

pub const RESPONSE_HEADER_C: &'static str = "\r\n\r\n";

/// The header of a response with `field` as the value of its content length.
pub open spec fn header_bytes(field: Seq<u8>) -> Seq<u8> {
    encode_utf8(RESPONSE_HEADER_A@) + field + encode_utf8(RESPONSE_HEADER_C@)
}

/// What follows the header of a response.
pub open spec fn content_bytes(response: ResponseView) -> Seq<u8> {
    response_bytes(response) + encode_utf8("\r\n"@)
}

/// The value of the content length of a response: its digits, and spaces up to
/// the width of the field.
pub open spec fn length_field(digits: Seq<u8>) -> Seq<u8> {
    digits + Seq::new((RESPONSE_HEADER_B@.len() - digits.len()) as nat, |i: int| 32u8)
}

fn extend_bytes(output: &mut Vec<u8>, bytes: &[u8])
    ensures
        final(output)@ == old(output)@ + bytes@,
{
    output.extend_from_slice(bytes);
    assert(output@ == old(output)@ + bytes@);
}

proof fn lemma_header_widths()
    ensures
        encode_utf8(RESPONSE_HEADER_A@).len() == 33,
        encode_utf8(RESPONSE_HEADER_B@) == Seq::new(8, |i: int| 32u8),
        RESPONSE_HEADER_B@.len() == 8,
        encode_utf8(RESPONSE_HEADER_C@) == seq![13u8, 10u8, 13u8, 10u8],
        encode_utf8("\r\n"@) == seq![13u8, 10u8],
{
    reveal_strlit("HTTP/1.1 200 OK\r\nContent-Length: ");
    reveal_strlit("        ");
    reveal_strlit("\r\n\r\n");
    reveal_strlit("\r\n");
    is_ascii_chars_encode_utf8(RESPONSE_HEADER_A@);
    is_ascii_chars_encode_utf8(RESPONSE_HEADER_B@);
    is_ascii_chars_encode_utf8(RESPONSE_HEADER_C@);
    is_ascii_chars_encode_utf8("\r\n"@);
    assert(encode_utf8(RESPONSE_HEADER_B@) =~= Seq::new(8, |i: int| 32u8));
    assert(encode_utf8(RESPONSE_HEADER_C@) =~= seq![13u8, 10u8, 13u8, 10u8]);
    assert(encode_utf8("\r\n"@) =~= seq![13u8, 10u8]);
}

/// Whether `message` is an HTTP message with `body` as its body: it says how long the
/// body is, in decimal digits that spaces follow up to a width of eight, and behind
/// the first empty line stands the body.
pub open spec fn is_message_with(message: Seq<u8>, body: Seq<u8>) -> bool {
    &&& message.len() == 45 + body.len()
    &&& message.take(33) == encode_utf8("HTTP/1.1 200 OK\r\nContent-Length: "@)
    &&& message.subrange(41, 45) == seq![13u8, 10u8, 13u8, 10u8]
    &&& message.skip(45) == body
    &&& exists|width: int| #[trigger] states_length(message.subrange(33, 41), width, body.len())
}

/// Whether the first `width` characters of `field` are decimal digits for `length`,
/// without superfluous zeros, and the others are spaces.
pub open spec fn states_length(field: Seq<u8>, width: int, length: nat) -> bool {
    &&& 0 < width <= field.len()
    &&& forall|i: int| 0 <= i < width ==> 48 <= #[trigger] field[i] <= 57
    &&& forall|i: int| width <= i < field.len() ==> #[trigger] field[i] == 32
    &&& width > 1 ==> field[0] != 48
    &&& digits_value(field.take(width)) == length
}

/// Makes `response_buffer` hold `response` as an HTTP message, and gives the
/// length of the message. A content length that is wider than its field is
/// refused.
pub fn write_response_to_buffer(
    response_buffer: &mut Vec<u8>,
    response: &Response,
) -> (result: Result<usize, ConnectionError>)
    ensures
        result is Ok <==> response_bytes(response@).len() + 2 < 100_000_000,
        result matches Ok(written) ==> written == final(response_buffer)@.len() && is_message_with(
            final(response_buffer)@,
            response_bytes(response@) + seq![13u8, 10u8],
        ),
        ({
            let content = content_bytes(response@);
            let digits = decimal_digits(content.len());
            if digits.len() <= RESPONSE_HEADER_B@.len() {
                &&& final(response_buffer)@ == header_bytes(length_field(digits)) + content
                &&& result == Ok::<usize, ConnectionError>(final(response_buffer).len())
            } else {
                &&& final(response_buffer)@ == header_bytes(encode_utf8(RESPONSE_HEADER_B@))
                    + content
                &&& result == Err::<usize, ConnectionError>(ConnectionError::ResponseBufferFull)
            }
        }),
{
    response_buffer.clear();
    extend_bytes(response_buffer, RESPONSE_HEADER_A.as_bytes());
    extend_bytes(response_buffer, RESPONSE_HEADER_B.as_bytes());
    extend_bytes(response_buffer, RESPONSE_HEADER_C.as_bytes());
    let body_start = response_buffer.len();
    assert(response_buffer@ == header_bytes(encode_utf8(RESPONSE_HEADER_B@)));
    match response.write_bytes(response_buffer) {
        Ok(_) => {},
        Err(message) => {
            return Err(ConnectionError::ResponseBufferWrite(message));
        },
    }
    extend_bytes(response_buffer, "\r\n".as_bytes());
    let ghost content = content_bytes(response@);
    let ghost unfilled = response_buffer@;
    assert(unfilled == header_bytes(encode_utf8(RESPONSE_HEADER_B@)) + content);
    let content_len = response_buffer.len() - body_start;
    let digits = format_number(content_len);
    proof {
        lemma_header_widths();
    }
    let start = RESPONSE_HEADER_A.len();
    proof {
        written_message_holds_the_response(response@);
    }
    if digits.len() > RESPONSE_HEADER_B.len() {
        return Err(ConnectionError::ResponseBufferFull);
    }
    let mut i: usize = 0;
    while i < digits.len()
        invariant
            start == 33,
            i <= digits.len() <= 8,
            response_buffer@.len() == unfilled.len(),
            unfilled.len() >= 45,
            forall|j: int|
                0 <= j < unfilled.len() ==> #[trigger] response_buffer@[j] == if start <= j < start
                    + i {
                    digits@[j - start]
                } else {
                    unfilled[j]
                },
        decreases digits.len() - i,
    {
        response_buffer.set(start + i, digits[i]);
        i = i + 1;
    }
    assert(response_buffer@ == header_bytes(length_field(digits@)) + content);
    Ok(response_buffer.len())
}

/// The number that ASCII digits stand for.
pub open spec fn digits_value(digits: Seq<u8>) -> nat
    decreases digits.len(),
{
    if digits.len() == 0 {
        0
    } else {
        10 * digits_value(digits.drop_last()) + (digits.last() - 48) as nat
    }
}

/// The digits of a number are decimal digits, at least one, and stand for the number.
pub proof fn digits_stand_for_the_number(number: nat)
    ensures
        digits_value(decimal_digits(number)) == number,
        decimal_digits(number).len() > 0,
        forall|i: int|
            0 <= i < decimal_digits(number).len() ==> 48 <= #[trigger] decimal_digits(number)[i]
                <= 57,
    decreases number,
{
    let digits = decimal_digits(number);
    if number < 10 {
        assert(digits.drop_last() == Seq::<u8>::empty());
        reveal_with_fuel(digits_value, 2);
    } else {
        digits_stand_for_the_number(number / 10);
        assert(digits.drop_last() == decimal_digits(number / 10));
    }
}

/// The content length fits in its field exactly below one hundred million bytes.
pub proof fn content_length_fits_below_one_hundred_million(number: nat)
    ensures
        decimal_digits(number).len() <= RESPONSE_HEADER_B@.len() <==> number < 100_000_000,
{
    lemma_header_widths();
    reveal_with_fuel(decimal_digits, 10);
}

proof fn lemma_digits_have_no_leading_zero(number: nat)
    ensures
        decimal_digits(number).len() > 1 ==> decimal_digits(number)[0] != 48,
        number > 0 ==> decimal_digits(number)[0] != 48,
    decreases number,
{
    digits_stand_for_the_number(number);
    if number >= 10 {
        digits_stand_for_the_number(number / 10);
        lemma_digits_have_no_leading_zero(number / 10);
    }
}

/// What follows the header of a written message is the whole bencoding of the response
/// and a line break, for each kind of response and whatever its length, as long as its
/// length can be stated in the header. The header states that length.
pub proof fn written_message_holds_the_response(response: ResponseView)
    ensures
        ({
            let body = response_bytes(response) + seq![13u8, 10u8];
            let digits = decimal_digits(content_bytes(response).len());
            let message = header_bytes(length_field(digits)) + content_bytes(response);
            &&& digits.len() <= RESPONSE_HEADER_B@.len() <==> body.len() < 100_000_000
            &&& body.len() < 100_000_000 ==> is_message_with(message, body)
            &&& body.len() < 100_000_000 ==> message.skip(45) == (match response {
                ResponseView::Announce(announce) => announce_bytes(announce),
                ResponseView::Scrape(entries) => scrape_bytes(entries),
                ResponseView::Failure(reason) => failure_bytes(reason),
            }) + seq![13u8, 10u8]
        }),
{
    let body = response_bytes(response) + seq![13u8, 10u8];
    let digits = decimal_digits(content_bytes(response).len());
    let field = length_field(digits);
    let message = header_bytes(field) + content_bytes(response);
    lemma_header_widths();
    assert(content_bytes(response) =~= body);
    content_length_fits_below_one_hundred_million(body.len());
    digits_stand_for_the_number(body.len());
    lemma_digits_have_no_leading_zero(body.len());
    if body.len() < 100_000_000 {
        stated_length_is_the_length_of_the_content(response);
        let width = digits.len() as int;
        let stated = message.subrange(33, 41);
        assert(stated =~= field);
        assert(stated.take(width) =~= digits);
        assert forall|i: int| 0 <= i < width implies 48 <= #[trigger] stated[i] <= 57 by {
            assert(stated[i] == digits[i]);
        }
        assert(stated[0] == digits[0]);
        assert(states_length(stated, width, body.len()));
    }
}

proof fn lemma_value_determines_digits(a: Seq<u8>, b: Seq<u8>)
    requires
        a.len() > 0,
        b.len() > 0,
        forall|i: int| 0 <= i < a.len() ==> 48 <= #[trigger] a[i] <= 57,
        forall|i: int| 0 <= i < b.len() ==> 48 <= #[trigger] b[i] <= 57,
        a.len() > 1 ==> a[0] != 48,
        b.len() > 1 ==> b[0] != 48,
        digits_value(a) == digits_value(b),
    ensures
        a == b,
    decreases a.len(),
{
    lemma_value_of_more_digits(a);
    lemma_value_of_more_digits(b);
    assert(a.last() == b.last() && digits_value(a.drop_last()) == digits_value(b.drop_last()));
    if a.len() > 1 && b.len() > 1 {
        lemma_value_determines_digits(a.drop_last(), b.drop_last());
        assert(a =~= a.drop_last().push(a.last()));
        assert(b =~= b.drop_last().push(b.last()));
    } else {
        reveal_with_fuel(digits_value, 2);
        assert(a =~= b);
    }
}

proof fn lemma_value_of_more_digits(digits: Seq<u8>)
    requires
        digits.len() > 0,
        forall|i: int| 0 <= i < digits.len() ==> 48 <= #[trigger] digits[i] <= 57,
        digits.len() > 1 ==> digits[0] != 48,
    ensures
        digits_value(digits) == 10 * digits_value(digits.drop_last()) + (digits.last() - 48),
        digits.len() > 1 ==> digits_value(digits.drop_last()) > 0,
        digits.len() == 1 ==> digits_value(digits.drop_last()) == 0,
    decreases digits.len(),
{
    assert(48 <= digits[digits.len() - 1] <= 57);
    if digits.len() > 1 {
        lemma_value_of_more_digits(digits.drop_last());
        assert(digits.drop_last()[0] == digits[0]);
    }
}

/// There is one message with a given body.
pub proof fn message_is_determined_by_its_body(a: Seq<u8>, b: Seq<u8>, body: Seq<u8>)
    requires
        is_message_with(a, body),
        is_message_with(b, body),
    ensures
        a == b,
{
    let field_a = a.subrange(33, 41);
    let field_b = b.subrange(33, 41);
    let width_a = choose|width: int| #[trigger] states_length(field_a, width, body.len());
    let width_b = choose|width: int| #[trigger] states_length(field_b, width, body.len());
    lemma_value_determines_digits(field_a.take(width_a), field_b.take(width_b));
    assert(field_a.take(width_a).len() == width_a && field_b.take(width_b).len() == width_b);
    assert forall|i: int| 0 <= i < 8 implies field_a[i] == field_b[i] by {
        if i < width_a {
            assert(field_a.take(width_a)[i] == field_b.take(width_b)[i]);
        }
    }
    assert forall|i: int| 0 <= i < a.len() implies a[i] == b[i] by {
        if i < 33 {
            assert(a.take(33)[i] == b.take(33)[i]);
        } else if i < 41 {
            assert(a[i] == field_a[i - 33] && b[i] == field_b[i - 33]);
        } else if i < 45 {
            assert(a.subrange(41, 45)[i - 41] == b.subrange(41, 45)[i - 41]);
        } else {
            assert(a.skip(45)[i - 45] == b.skip(45)[i - 45]);
        }
    }
    assert(a =~= b);
}

/// What a caller hands in is what is encoded: of an announce response every number and
/// peer, of a scrape response every torrent, of a failure its reason.
pub proof fn responses_are_encoded_by_kind(response: Response)
    ensures
        response matches Response::Announce(announce) ==> {
            &&& response_bytes(response@) == announce_bytes(announce@)
            &&& announce@.announce_interval == announce.announce_interval
            &&& announce@.complete == announce.complete
            &&& announce@.incomplete == announce.incomplete
            &&& announce@.peers.len() == announce.peers.len()
            &&& forall|i: int|
                0 <= i < announce.peers.len() ==> (#[trigger] announce@.peers[i]).octets
                    == announce.peers@[i].octets@ && announce@.peers[i].port
                    == announce.peers@[i].port
            &&& announce@.peers6.len() == announce.peers6.len()
            &&& forall|i: int|
                0 <= i < announce.peers6.len() ==> (#[trigger] announce@.peers6[i]).octets
                    == announce.peers6@[i].octets@ && announce@.peers6[i].port
                    == announce.peers6@[i].port
            &&& announce@.warning_message is Some <==> announce.warning_message is Some
            &&& announce.warning_message matches Some(message) ==> announce@.warning_message
                == Some(message@)
        },
        response matches Response::Scrape(scrape) ==> response_bytes(response@) == scrape_bytes(
            scrape.files@,
        ),
        response matches Response::Failure(failure) ==> response_bytes(response@) == failure_bytes(
            failure.failure_reason@,
        ),
{
}

/// The torrents of a scrape response are encoded one after another, none is left out.
pub proof fn torrents_are_encoded_one_after_another(
    a: Seq<(Seq<u8>, ScrapeStatistics)>,
    b: Seq<(Seq<u8>, ScrapeStatistics)>,
)
    ensures
        scrape_entry_bytes(a + b) == scrape_entry_bytes(a) + scrape_entry_bytes(b),
    decreases b.len(),
{
    if b.len() == 0 {
        assert(a + b =~= a);
        assert(scrape_entry_bytes(a) + Seq::<u8>::empty() =~= scrape_entry_bytes(a));
    } else {
        torrents_are_encoded_one_after_another(a, b.drop_last());
        assert((a + b).drop_last() =~= a + b.drop_last());
        assert((a + b).last() == b.last());
        assert(scrape_entry_bytes(a + b) =~= scrape_entry_bytes(a) + scrape_entry_bytes(b));
    }
}

/// The peers of an announce response are encoded one after another, each as its
/// address and its port.
pub proof fn peers_are_encoded_one_after_another(
    a: Seq<ResponsePeerView>,
    b: Seq<ResponsePeerView>,
)
    ensures
        compact_peers(a + b) == compact_peers(a) + compact_peers(b),
        b.len() == 1 ==> {
            &&& compact_peers(b).take(b[0].octets.len() as int) == b[0].octets
            &&& compact_peers(b).len() == b[0].octets.len() + 2
            &&& compact_peers(b)[b[0].octets.len() as int] * 256 + compact_peers(
                b,
            )[b[0].octets.len() as int + 1] == b[0].port
        },
    decreases b.len(),
{
    if b.len() == 0 {
        assert(a + b =~= a);
        assert(compact_peers(a) + Seq::<u8>::empty() =~= compact_peers(a));
    } else {
        peers_are_encoded_one_after_another(a, b.drop_last());
        assert((a + b).drop_last() =~= a + b.drop_last());
        assert((a + b).last() == b.last());
        assert(compact_peers(a + b) =~= compact_peers(a) + compact_peers(b));
        if b.len() == 1 {
            assert(b.drop_last() =~= Seq::<ResponsePeerView>::empty());
            assert(compact_peers(b).take(b[0].octets.len() as int) =~= b[0].octets);
        }
    }
}

/// A written message states the length of what follows the first empty line, and
/// what follows ends in a line break.
pub proof fn stated_length_is_the_length_of_the_content(response: ResponseView)
    requires
        content_bytes(response).len() < 100_000_000,
    ensures
        ({
            let content = content_bytes(response);
            let digits = decimal_digits(content.len());
            let message = header_bytes(length_field(digits)) + content;
            &&& message.take(33) == encode_utf8(RESPONSE_HEADER_A@)
            &&& message.subrange(33, 33 + digits.len() as int) == digits
            &&& digits_value(digits) == message.len() - 45
            &&& forall|i: int| 33 + digits.len() <= i < 41 ==> #[trigger] message[i] == 32
            &&& message.subrange(41, 45) == seq![13u8, 10u8, 13u8, 10u8]
            &&& forall|i: int| 0 <= i < 41 ==> #[trigger] message.subrange(i, i + 4) != seq![13u8, 10u8, 13u8, 10u8]
            &&& message.skip(45) == content
            &&& message.skip(message.len() - 2) == seq![13u8, 10u8]
        }),
{
    let content = content_bytes(response);
    let digits = decimal_digits(content.len());
    let field = length_field(digits);
    let message = header_bytes(field) + content;
    lemma_header_widths();
    content_length_fits_below_one_hundred_million(content.len());
    digits_stand_for_the_number(content.len());
    assert(field.len() == 8);
    assert(message.len() == 45 + content.len());
    assert(message.take(33) =~= encode_utf8(RESPONSE_HEADER_A@));
    assert(message.subrange(33, 33 + digits.len() as int) =~= digits);
    assert(message.subrange(41, 45) =~= seq![13u8, 10u8, 13u8, 10u8]);
    assert(message.skip(45) =~= content);
    assert(message.skip(message.len() - 2) =~= seq![13u8, 10u8]);
    assert forall|i: int| 0 <= i < 41 implies #[trigger] message.subrange(i, i + 4) != seq![
        13u8,
        10u8,
        13u8,
        10u8,
    ] by {
        let window = message.subrange(i, i + 4);
        assert(window[0] == message[i] && window[2] == message[i + 2]);
        reveal_strlit("HTTP/1.1 200 OK\r\nContent-Length: ");
        is_ascii_chars_encode_utf8(RESPONSE_HEADER_A@);
        if i < 33 {
            assert(message[i] == encode_utf8(RESPONSE_HEADER_A@)[i]);
            assert(RESPONSE_HEADER_A@[i] as u8 == message[i]);
            assert(message[17] == encode_utf8(RESPONSE_HEADER_A@)[17]);
            assert(RESPONSE_HEADER_A@[17] as u8 == message[17]);
        } else {
            assert(message[i] == field[i - 33]);
        }
    }
}

} // verus!
