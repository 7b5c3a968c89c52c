//! Reading one request from the bytes that a peer has sent.

use vstd::prelude::*;
use vstd::utf8::{
    decode_utf8, encode_utf8, encode_utf8_decode_utf8, encode_utf8_valid_utf8, valid_utf8,
};

use crate::address::{ip_of, parse_ip, IpAddr, IpAddrView};
use crate::config::{Config, ReverseProxyPeerIpHeaderFormat};
use crate::error::ErrorChain;
use crate::http::{
    head_result, header_views, http_head_of, is_complete, parse_http_head, HttpHead, HttpHeadView,
    HttpHeader, HttpHeaderView,
};
use crate::protocol::{parse_http_get_path, request_result, tracker_request_of, Request, RequestView};
use crate::text::{
    contains_char, eq_ignore_ascii_case, from_utf8, is_white_space, same_ignoring_case, same_text,
    split, split_on, splitting_cuts_at_each_separator, splitting_goes_on_behind_a_separator, texts,
    trim, trimmed, trimmed_end, trimmed_start, utf8_error_text,
};

verus! {

/// The number of headers that a request may have.
pub const MAX_HEADERS: usize = 32;

/// Why no request could be read.
#[derive(Clone, Debug, PartialEq, Eq)]
pub enum RequestParseError {
    RequiredPeerIpHeaderMissing(ErrorChain),
    InvalidRequest(ErrorChain),
    MethodNotAllowed,
    MoreDataNeeded,
}

/// The request methods that this tracker serves. HTTP methods are case-sensitive
/// (RFC 7231, section 4.1) and only these two carry meaning for a tracker.
#[derive(Clone, Copy, Debug, PartialEq, Eq, Structural)]
pub enum HttpMethod {
    Get,
    Head,
}

#[derive(Clone, Debug, PartialEq, Eq)]
pub enum HttpRequest {
    Tracker(Request),
    StaticIndex,
}

/// Outcome of reading a single request from the front of a buffer.
#[derive(Clone, Debug, PartialEq, Eq)]
pub struct ParsedRequest {
    pub request: HttpRequest,
    pub method: HttpMethod,
    /// Number of bytes consumed from the buffer. Any bytes after this belong to a
    /// subsequent (pipelined) request and must be retained by the caller.
    pub consumed: usize,
    pub opt_peer_ip: Option<IpAddr>,
}

/// What a [`RequestParseError`] stands for.
pub enum RequestParseErrorView {
    RequiredPeerIpHeaderMissing(Seq<Seq<char>>),
    InvalidRequest(Seq<Seq<char>>),
    MethodNotAllowed,
    MoreDataNeeded,
}

/// What an [`HttpRequest`] stands for.
pub enum HttpRequestView {
    Tracker(RequestView),
    StaticIndex,
}

/// What a [`ParsedRequest`] stands for.
pub struct ParsedRequestView {
    pub request: HttpRequestView,
    pub method: HttpMethod,
    pub consumed: nat,
    pub opt_peer_ip: Option<IpAddrView>,
}

impl View for RequestParseError {
    type V = RequestParseErrorView;

    open spec fn view(&self) -> RequestParseErrorView {
        match *self {
            RequestParseError::RequiredPeerIpHeaderMissing(
                chain,
            ) => RequestParseErrorView::RequiredPeerIpHeaderMissing(chain@),
            RequestParseError::InvalidRequest(chain) => RequestParseErrorView::InvalidRequest(
                chain@,
            ),
            RequestParseError::MethodNotAllowed => RequestParseErrorView::MethodNotAllowed,
            RequestParseError::MoreDataNeeded => RequestParseErrorView::MoreDataNeeded,
        }
    }
}

impl View for HttpRequest {
    type V = HttpRequestView;

    open spec fn view(&self) -> HttpRequestView {
        match *self {
            HttpRequest::Tracker(request) => HttpRequestView::Tracker(request@),
            HttpRequest::StaticIndex => HttpRequestView::StaticIndex,
        }
    }
}

impl View for ParsedRequest {
    type V = ParsedRequestView;

    open spec fn view(&self) -> ParsedRequestView {
        ParsedRequestView {
            request: self.request@,
            method: self.method,
            consumed: self.consumed as nat,
            opt_peer_ip: match self.opt_peer_ip {
                Some(ip) => Some(ip@),
                None => None,
            },
        }
    }
}

/// The text that says why no request could be read.
pub open spec fn request_error_text(err: RequestParseErrorView) -> Seq<char> {
    match err {
        RequestParseErrorView::RequiredPeerIpHeaderMissing(
            _,
        ) => "required peer ip header missing or invalid"@,
        RequestParseErrorView::InvalidRequest(_) => "invalid request"@,
        RequestParseErrorView::MethodNotAllowed => "method not allowed"@,
        RequestParseErrorView::MoreDataNeeded => "more data needed"@,
    }
}

impl RequestParseError {
    /// The text that says why no request could be read.
    pub fn report(&self) -> (text: &'static str)
        ensures
            text@ == request_error_text(self@),
    {
        match self {
            RequestParseError::RequiredPeerIpHeaderMissing(
                _,
            ) => "required peer ip header missing or invalid",
            RequestParseError::InvalidRequest(_) => "invalid request",
            RequestParseError::MethodNotAllowed => "method not allowed",
            RequestParseError::MoreDataNeeded => "more data needed",
        }
    }
}

/// What the result of reading a request stands for.
pub open spec fn parse_result(result: Result<ParsedRequest, RequestParseError>) -> Result<
    ParsedRequestView,
    RequestParseErrorView,
> {
    match result {
        Ok(parsed) => Ok(parsed@),
        Err(err) => Err(err@),
    }
}

/// The header names in a list of names separated by commas.
pub open spec fn configured_names(header_names: Seq<char>) -> Seq<Seq<char>> {
    split_on(header_names, ',').map_values(|name: Seq<char>| trimmed(name)).filter(
        |name: Seq<char>| name.len() > 0,
    )
}

/// The one header name in `header_names`, where that is not a list of names.
pub open spec fn single_name(header_names: Seq<char>) -> Option<Seq<char>> {
    let name = trimmed(header_names);
    if name.len() == 0 || name.contains(',') {
        None
    } else {
        Some(name)
    }
}

/// The one header name in `header_names`, without the white space around it,
/// where that is not a list of names.
pub fn configured_single_header_name(header_names: &str) -> (result: Option<&str>)
    ensures
        match result {
            Some(name) => single_name(header_names@) == Some(name@),
            None => single_name(header_names@) is None,
        },
{
    let header_name = trim(header_names);
    if header_name.is_empty() || contains_char(header_name, ',') {
        None
    } else {
        Some(header_name)
    }
}

/// The header names in a list of names separated by commas, each without the
/// white space around it. Empty names are left out.
pub fn configured_header_names(header_names: &str) -> (names: Vec<&str>)
    ensures
        texts(names@) == configured_names(header_names@),
{
    let pieces = split(header_names, ',');
    let ghost all = split_on(header_names@, ',').map_values(|name: Seq<char>| trimmed(name));
    let ghost kept = |name: Seq<char>| name.len() > 0;
    let mut names: Vec<&str> = Vec::new();
    let mut i: usize = 0;
    proof {
        reveal(Seq::filter);
        assert(texts(names@) == all.take(0).filter(kept));
    }
    while i < pieces.len()
        invariant
            texts(pieces@) == split_on(header_names@, ','),
            all == split_on(header_names@, ',').map_values(|name: Seq<char>| trimmed(name)),
            kept == |name: Seq<char>| name.len() > 0,
            i <= pieces.len(),
            texts(names@) == all.take(i as int).filter(kept),
        decreases pieces.len() - i,
    {
        let name = trim(pieces[i]);
        let ghost before = texts(names@);
        proof {
            assert(texts(pieces@)[i as int] == pieces@[i as int]@);
            assert(all[i as int] == name@);
            assert(all.take(i + 1).drop_last() == all.take(i as int));
            assert(all.take(i + 1).last() == name@);
            reveal(Seq::filter);
        }
        if !name.is_empty() {
            names.push(name);
            assert(texts(names@) == before.push(name@));
        }
        i = i + 1;
    }
    assert(all.take(i as int) == all);
    names
}

proof fn lemma_trimming_keeps_separators(text: Seq<char>, c: char)
    requires
        !is_white_space(c),
    ensures
        trimmed(text).contains(c) <==> text.contains(c),
{
    lemma_trimming_start_keeps_separators(text, c);
    lemma_trimming_end_keeps_separators(trimmed_start(text), c);
}

proof fn lemma_trimming_start_keeps_separators(text: Seq<char>, c: char)
    requires
        !is_white_space(c),
    ensures
        trimmed_start(text).contains(c) <==> text.contains(c),
    decreases text.len(),
{
    if text.len() > 0 && is_white_space(text[0]) {
        let rest = text.drop_first();
        lemma_trimming_start_keeps_separators(rest, c);
        if text.contains(c) {
            let i = choose|i: int| 0 <= i < text.len() && text[i] == c;
            assert(rest[i - 1] == c);
        }
        if rest.contains(c) {
            let i = choose|i: int| 0 <= i < rest.len() && rest[i] == c;
            assert(text[i + 1] == c);
        }
    }
}

proof fn lemma_trimming_end_keeps_separators(text: Seq<char>, c: char)
    requires
        !is_white_space(c),
    ensures
        trimmed_end(text).contains(c) <==> text.contains(c),
    decreases text.len(),
{
    if text.len() > 0 && is_white_space(text.last()) {
        let rest = text.drop_last();
        lemma_trimming_end_keeps_separators(rest, c);
        if text.contains(c) {
            let i = choose|i: int| 0 <= i < text.len() && text[i] == c;
            assert(rest[i] == c);
        }
        if rest.contains(c) {
            let i = choose|i: int| 0 <= i < rest.len() && rest[i] == c;
            assert(text[i] == c);
        }
    }
}

proof fn lemma_text_without_separator_is_one_piece(text: Seq<char>, separator: char)
    requires
        !text.contains(separator),
    ensures
        split_on(text, separator) == seq![text],
    decreases text.len(),
{
    if text.len() > 0 {
        let rest = text.drop_last();
        assert forall|i: int| 0 <= i < rest.len() implies rest[i] != separator by {
            assert(text[i] != separator);
        }
        lemma_text_without_separator_is_one_piece(rest, separator);
        assert(text[text.len() - 1] != separator);
        assert(rest.push(text.last()) == text);
        assert(seq![rest].drop_last().push(text) == seq![text]);
    } else {
        assert(text == Seq::<char>::empty());
    }
}

/// Where one header name is configured rather than a list of names, it is the
/// only name in the list.
pub proof fn single_name_is_the_only_name(header_names: Seq<char>)
    ensures
        single_name(header_names) matches Some(name) ==> configured_names(header_names) == seq![
            name,
        ],
{
    if single_name(header_names) is Some {
        let name = trimmed(header_names);
        lemma_trimming_keeps_separators(header_names, ',');
        lemma_text_without_separator_is_one_piece(header_names, ',');
        let all = split_on(header_names, ',').map_values(|name: Seq<char>| trimmed(name));
        assert(all == seq![name]);
        reveal_with_fuel(Seq::filter, 2);
        assert(all.drop_last() == Seq::<Seq<char>>::empty());
        assert(configured_names(header_names) == seq![name]);
    }
}

/// The value of the last header named `name`, whatever the case of its letters.
pub open spec fn header_value(headers: Seq<HttpHeaderView>, name: Seq<char>) -> Option<Seq<u8>>
    decreases headers.len(),
{
    if headers.len() == 0 {
        None
    } else if same_ignoring_case(headers.last().name, name) {
        Some(headers.last().value)
    } else {
        header_value(headers.drop_last(), name)
    }
}

/// The address in the value of the header named `name`, or the messages of the
/// error that says why there is none.
pub open spec fn ip_of_header_value(
    name: Seq<char>,
    format: ReverseProxyPeerIpHeaderFormat,
    value: Seq<u8>,
) -> Result<IpAddrView, Seq<Seq<char>>> {
    match format {
        ReverseProxyPeerIpHeaderFormat::LastAddress => if !valid_utf8(value) {
            Err(seq![utf8_error_text(value)])
        } else {
            match ip_of(trimmed(split_on(decode_utf8(value), ',').last())) {
                Some(ip) => Ok(ip),
                None => Err(seq!["parse "@ + name + " header IP"@, "invalid IP address syntax"@]),
            }
        },
    }
}

/// What the first of `names` that a header bears says of the address, if any of
/// them is borne by a header.
pub open spec fn ip_of_first_present(
    names: Seq<Seq<char>>,
    format: ReverseProxyPeerIpHeaderFormat,
    headers: Seq<HttpHeaderView>,
) -> Option<Result<IpAddrView, Seq<Seq<char>>>>
    decreases names.len(),
{
    if names.len() == 0 {
        None
    } else {
        match header_value(headers, names[0]) {
            Some(value) => Some(ip_of_header_value(names[0], format, value)),
            None => ip_of_first_present(names.drop_first(), format, headers),
        }
    }
}

/// The address of the peer that the configured headers give, or the messages of
/// the error that says why there is none.
pub open spec fn forwarded_ip(
    header_names: Seq<char>,
    format: ReverseProxyPeerIpHeaderFormat,
    headers: Seq<HttpHeaderView>,
) -> Result<IpAddrView, Seq<Seq<char>>> {
    let names = configured_names(header_names);
    match ip_of_first_present(names, format, headers) {
        Some(result) => result,
        None => Err(
            if names.len() > 0 {
                seq!["header not present"@]
            } else {
                seq!["no header name configured"@]
            },
        ),
    }
}

/// What the result of looking for an address stands for.
pub open spec fn ip_result(result: Result<IpAddr, ErrorChain>) -> Result<
    IpAddrView,
    Seq<Seq<char>>,
> {
    match result {
        Ok(ip) => Ok(ip@),
        Err(chain) => Err(chain@),
    }
}

/// The address in the value of the header named `header_name`.
pub fn parse_forwarded_header_value(
    header_name: &str,
    header_format: ReverseProxyPeerIpHeaderFormat,
    value: &[u8],
) -> (result: Result<IpAddr, ErrorChain>)
    ensures
        ip_result(result) == ip_of_header_value(header_name@, header_format, value@),
{
    match header_format {
        ReverseProxyPeerIpHeaderFormat::LastAddress => match from_utf8(value) {
            Err(message) => Err(ErrorChain::new(message.as_str())),
            Ok(text) => {
                let addresses = split(text, ',');
                let last = addresses[addresses.len() - 1];
                assert(texts(addresses@).last() == last@);
                match parse_ip(trim(last)) {
                    Some(ip) => Ok(ip),
                    None => {
                        let mut message = "parse ".to_owned();
                        message.append(header_name);
                        message.append(" header IP");
                        let chain = ErrorChain::new("invalid IP address syntax").context(
                            message.as_str(),
                        );
                        assert(chain@ == seq![
                            "parse "@ + header_name@ + " header IP"@,
                            "invalid IP address syntax"@,
                        ]);
                        Err(chain)
                    },
                }
            },
        },
    }
}

/// The address that the last header named `header_name` gives, if there is such
/// a header.
pub fn parse_named_forwarded_header(
    header_name: &str,
    header_format: ReverseProxyPeerIpHeaderFormat,
    headers: &Vec<HttpHeader>,
) -> (result: Result<Option<IpAddr>, ErrorChain>)
    ensures
        match header_value(header_views(headers@), header_name@) {
            Some(value) => match ip_of_header_value(header_name@, header_format, value) {
                Ok(ip) => result matches Ok(Some(found)) && found@ == ip,
                Err(messages) => result matches Err(chain) && chain@ == messages,
            },
            None => result == Ok::<Option<IpAddr>, ErrorChain>(None),
        },
{
    let ghost views = header_views(headers@);
    let mut left: usize = headers.len();
    assert(views.take(left as int) == views);
    while left > 0
        invariant
            views == header_views(headers@),
            left <= headers.len(),
            header_value(views, header_name@) == header_value(
                views.take(left as int),
                header_name@,
            ),
        decreases left,
    {
        let header = &headers[left - 1];
        assert(views[left - 1] == header@);
        if eq_ignore_ascii_case(header.name.as_str(), header_name) {
            return match parse_forwarded_header_value(
                header_name,
                header_format,
                header.value.as_slice(),
            ) {
                Ok(ip) => Ok(Some(ip)),
                Err(chain) => Err(chain),
            };
        }
        assert(views.take(left as int).drop_last() == views.take(left - 1));
        left = left - 1;
    }
    Ok(None)
}

/// The address of the peer that the configured headers give: that of the first
/// configured name that a header bears.
pub fn parse_forwarded_header(
    header_names: &str,
    header_format: ReverseProxyPeerIpHeaderFormat,
    headers: &Vec<HttpHeader>,
) -> (result: Result<IpAddr, ErrorChain>)
    ensures
        ip_result(result) == forwarded_ip(header_names@, header_format, header_views(headers@)),
{
    let ghost views = header_views(headers@);
    if let Some(header_name) = configured_single_header_name(header_names) {
        proof {
            single_name_is_the_only_name(header_names@);
            assert(seq![header_name@].drop_first() == Seq::<Seq<char>>::empty());
            reveal_with_fuel(ip_of_first_present, 2);
        }
        return match parse_named_forwarded_header(header_name, header_format, headers) {
            Ok(Some(ip)) => Ok(ip),
            Ok(None) => Err(ErrorChain::new("header not present")),
            Err(chain) => Err(chain),
        };
    }
    let names = configured_header_names(header_names);
    let ghost all = configured_names(header_names@);
    let mut i: usize = 0;
    assert(all.skip(0) == all);
    while i < names.len()
        invariant
            views == header_views(headers@),
            all == configured_names(header_names@),
            texts(names@) == all,
            i <= names.len(),
            ip_of_first_present(all, header_format, views) == ip_of_first_present(
                all.skip(i as int),
                header_format,
                views,
            ),
        decreases names.len() - i,
    {
        assert(all.skip(i as int)[0] == names@[i as int]@) by {
            assert(texts(names@)[i as int] == names@[i as int]@);
        }
        assert(all.skip(i as int).drop_first() == all.skip(i + 1));
        match parse_named_forwarded_header(names[i], header_format, headers) {
            Ok(Some(ip)) => {
                return Ok(ip);
            },
            Ok(None) => {},
            Err(chain) => {
                return Err(chain);
            },
        }
        i = i + 1;
    }
    if names.len() > 0 {
        Err(ErrorChain::new("header not present"))
    } else {
        Err(ErrorChain::new("no header name configured"))
    }
}

/// The method that a word stands for, if this tracker serves it.
pub open spec fn method_of(word: Option<Seq<char>>) -> Option<HttpMethod> {
    if word == Some("GET"@) {
        Some(HttpMethod::Get)
    } else if word == Some("HEAD"@) {
        Some(HttpMethod::Head)
    } else {
        None
    }
}

/// Whether a path is that of the index page.
pub open spec fn is_index_path(path: Seq<char>) -> bool {
    path == "/"@ || path == "/index.html"@
}

/// The outcome for a complete head whose path is not that of the index page,
/// given what the path says: `tracker` is the request, or the messages of the
/// error with which the path was refused.
pub open spec fn tracker_outcome(
    config: Config,
    method: HttpMethod,
    consumed: nat,
    headers: Seq<HttpHeaderView>,
    tracker: Result<RequestView, Seq<Seq<char>>>,
) -> Result<ParsedRequestView, RequestParseErrorView> {
    match tracker {
        Err(messages) => Err(RequestParseErrorView::InvalidRequest(messages)),
        Ok(request) => {
            let parsed = ParsedRequestView {
                request: HttpRequestView::Tracker(request),
                method,
                consumed,
                opt_peer_ip: None,
            };
            if config.network.runs_behind_reverse_proxy {
                match forwarded_ip(
                    config.network.reverse_proxy_ip_header_name@,
                    config.network.reverse_proxy_ip_header_format,
                    headers,
                ) {
                    Ok(ip) => Ok(ParsedRequestView { opt_peer_ip: Some(ip), ..parsed }),
                    Err(messages) => Err(
                        RequestParseErrorView::RequiredPeerIpHeaderMissing(messages),
                    ),
                }
            } else {
                Ok(parsed)
            }
        },
    }
}

/// The outcome for a head, or for the message of the error with which it was refused.
pub open spec fn head_outcome(config: Config, head: Result<HttpHeadView, Seq<char>>) -> Result<
    ParsedRequestView,
    RequestParseErrorView,
> {
    match head {
        Err(message) => Err(RequestParseErrorView::InvalidRequest(seq!["httparse"@, message])),
        Ok(HttpHeadView::Partial) => Err(RequestParseErrorView::MoreDataNeeded),
        Ok(HttpHeadView::Complete { consumed, method, path, headers }) => match (
            method_of(method),
            path,
        ) {
            (None, _) => Err(RequestParseErrorView::MethodNotAllowed),
            (Some(_), None) => Err(RequestParseErrorView::InvalidRequest(seq!["no http path"@])),
            (Some(method), Some(path)) => if is_index_path(path) {
                Ok(
                    ParsedRequestView {
                        request: HttpRequestView::StaticIndex,
                        method,
                        consumed,
                        opt_peer_ip: None,
                    },
                )
            } else {
                tracker_outcome(config, method, consumed, headers, tracker_request_of(path))
            },
        },
    }
}

/// What reading a request from the front of `bytes` gives.
pub open spec fn request_in(config: Config, bytes: Seq<u8>) -> Result<
    ParsedRequestView,
    RequestParseErrorView,
> {
    head_outcome(config, http_head_of(bytes, MAX_HEADERS as nat))
}

/// Whether reading `bytes` gives `parsed`, and that on account of the bytes it takes
/// up alone: with fewer of them more data is needed, and whatever follows them has no
/// influence.
pub open spec fn is_accepted(config: Config, bytes: Seq<u8>, parsed: ParsedRequestView) -> bool {
    &&& request_in(config, bytes) == Ok::<ParsedRequestView, RequestParseErrorView>(parsed)
    &&& 0 < parsed.consumed <= bytes.len()
    &&& forall|k: int|
        0 <= k < parsed.consumed ==> #[trigger] request_in(config, bytes.take(k)) == Err::<
            ParsedRequestView,
            RequestParseErrorView,
        >(RequestParseErrorView::MoreDataNeeded)
    &&& forall|rest: Seq<u8>| #[trigger]
        request_in(config, bytes.take(parsed.consumed as int) + rest) == Ok::<
            ParsedRequestView,
            RequestParseErrorView,
        >(parsed)
}

/// Completes a request whose path is not that of the index page, given what
/// reading the path gave.
pub fn finish_tracker_request(
    config: &Config,
    method: HttpMethod,
    consumed: usize,
    headers: &Vec<HttpHeader>,
    tracker: Result<Request, Vec<String>>,
) -> (result: Result<ParsedRequest, RequestParseError>)
    requires
        tracker matches Err(messages) ==> messages.len() > 0,
    ensures
        parse_result(result) == tracker_outcome(
            *config,
            method,
            consumed as nat,
            header_views(headers@),
            request_result(tracker),
        ),
{
    match tracker {
        Err(messages) => Err(RequestParseError::InvalidRequest(ErrorChain::from_messages(messages))),
        Ok(request) => {
            let opt_peer_ip = if config.network.runs_behind_reverse_proxy {
                match parse_forwarded_header(
                    config.network.reverse_proxy_ip_header_name.as_str(),
                    config.network.reverse_proxy_ip_header_format,
                    headers,
                ) {
                    Ok(peer_ip) => Some(peer_ip),
                    Err(chain) => {
                        return Err(RequestParseError::RequiredPeerIpHeaderMissing(chain));
                    },
                }
            } else {
                None
            };
            Ok(
                ParsedRequest {
                    request: HttpRequest::Tracker(request),
                    method,
                    consumed,
                    opt_peer_ip,
                },
            )
        },
    }
}

/// Reads the request that a head makes, given what reading the head gave.
pub fn parse_request_head(config: &Config, head: Result<HttpHead, String>) -> (result: Result<
    ParsedRequest,
    RequestParseError,
>)
    ensures
        parse_result(result) == head_outcome(*config, head_result(head)),
{
    match head {
        Err(message) => {
            let chain = ErrorChain::new(message.as_str()).context("httparse");
            assert(chain@ == seq!["httparse"@, message@]);
            Err(RequestParseError::InvalidRequest(chain))
        },
        Ok(HttpHead::Partial) => Err(RequestParseError::MoreDataNeeded),
        Ok(HttpHead::Complete { consumed, method, path, headers }) => {
            proof {
                reveal_strlit("GET");
                reveal_strlit("HEAD");
            }
            let method = match method {
                Some(word) => {
                    if same_text(word.as_str(), "GET") {
                        HttpMethod::Get
                    } else if same_text(word.as_str(), "HEAD") {
                        HttpMethod::Head
                    } else {
                        return Err(RequestParseError::MethodNotAllowed);
                    }
                },
                None => {
                    return Err(RequestParseError::MethodNotAllowed);
                },
            };
            match path {
                None => Err(RequestParseError::InvalidRequest(ErrorChain::new("no http path"))),
                Some(path) => {
                    if same_text(path.as_str(), "/") || same_text(path.as_str(), "/index.html") {
                        Ok(
                            ParsedRequest {
                                request: HttpRequest::StaticIndex,
                                method,
                                consumed,
                                opt_peer_ip: None,
                            },
                        )
                    } else {
                        let tracker = parse_http_get_path(path.as_str());
                        finish_tracker_request(config, method, consumed, &headers, tracker)
                    }
                },
            }
        },
    }
}

/// Reads one request from the front of `buffer`. With fewer bytes than those of the
/// request more data is needed, and what follows the request in the buffer does not
/// change how it is read.
pub fn parse_request(config: &Config, buffer: &[u8]) -> (result: Result<
    ParsedRequest,
    RequestParseError,
>)
    ensures
        parse_result(result) == request_in(*config, buffer@),
        result matches Ok(parsed) ==> is_accepted(*config, buffer@, parsed@),
        forall|k: int|
            0 <= k <= buffer@.len() ==> is_complete(
                #[trigger] http_head_of(buffer@.take(k), MAX_HEADERS as nat),
            ) ==> parse_result(result) == request_in(*config, buffer@.take(k)),
{
    let head = parse_http_head(buffer, MAX_HEADERS);
    parse_request_head(config, head)
}

/// A peer address is taken from the headers exactly where the tracker runs
/// behind a reverse proxy and the request is a tracker request.
pub proof fn peer_ip_is_given_behind_a_proxy(
    config: Config,
    head: Result<HttpHeadView, Seq<char>>,
)
    ensures
        head_outcome(config, head) matches Ok(parsed) ==> (parsed.opt_peer_ip is Some <==> (
        config.network.runs_behind_reverse_proxy && parsed.request is Tracker)),
{
}

/// The first configured header name that a header bears decides, even where its
/// value holds no address: later names are not looked at.
pub proof fn first_present_header_decides(
    earlier: Seq<Seq<char>>,
    name: Seq<char>,
    later: Seq<Seq<char>>,
    format: ReverseProxyPeerIpHeaderFormat,
    headers: Seq<HttpHeaderView>,
)
    requires
        forall|i: int| 0 <= i < earlier.len() ==> header_value(headers, #[trigger] earlier[i]) is None,
        header_value(headers, name) is Some,
    ensures
        ip_of_first_present(earlier + seq![name] + later, format, headers) == Some(
            ip_of_header_value(name, format, header_value(headers, name).unwrap()),
        ),
    decreases earlier.len(),
{
    let names = earlier + seq![name] + later;
    if earlier.len() > 0 {
        let rest = earlier.drop_first();
        assert forall|i: int| 0 <= i < rest.len() implies header_value(
            headers,
            #[trigger] rest[i],
        ) is None by {
            assert(rest[i] == earlier[i + 1]);
        }
        first_present_header_decides(rest, name, later, format, headers);
        assert(names.drop_first() == rest + seq![name] + later);
        assert(names[0] == earlier[0]);
    } else {
        assert(names[0] == name);
    }
}

/// Of several headers of one name the last one decides, whatever the case of the
/// letters of its name.
pub proof fn last_header_of_a_name_decides(
    earlier: Seq<HttpHeaderView>,
    header: HttpHeaderView,
    later: Seq<HttpHeaderView>,
    name: Seq<char>,
)
    requires
        same_ignoring_case(header.name, name),
        forall|i: int|
            0 <= i < later.len() ==> !same_ignoring_case((#[trigger] later[i]).name, name),
    ensures
        header_value(earlier + seq![header] + later, name) == Some(header.value),
    decreases later.len(),
{
    let headers = earlier + seq![header] + later;
    if later.len() > 0 {
        assert(headers.last() == later[later.len() - 1]);
        assert(headers.drop_last() == earlier + seq![header] + later.drop_last());
        last_header_of_a_name_decides(earlier, header, later.drop_last(), name);
    } else {
        assert(headers.last() == header);
    }
}

proof fn lemma_filter_of_two_halves(a: Seq<Seq<char>>, b: Seq<Seq<char>>)
    ensures
        (a + b).filter(|name: Seq<char>| name.len() > 0) == a.filter(
            |name: Seq<char>| name.len() > 0,
        ) + b.filter(|name: Seq<char>| name.len() > 0),
    decreases b.len(),
{
    let kept = |name: Seq<char>| name.len() > 0;
    reveal(Seq::filter);
    if b.len() > 0 {
        lemma_filter_of_two_halves(a, b.drop_last());
        assert((a + b).drop_last() =~= a + b.drop_last());
        assert((a + b).last() == b.last());
        if kept(b.last()) {
            assert((a.filter(kept) + b.drop_last().filter(kept)).push(b.last()) =~= a.filter(kept)
                + b.drop_last().filter(kept).push(b.last()));
        }
    } else {
        assert(a + b =~= a);
        assert(a.filter(kept) + b.filter(kept) =~= a.filter(kept));
    }
}

/// A list of header names is read name by name: what stands before a comma and what
/// follows it are read independently, and what holds no comma is one name, without
/// the white space around it, or none where nothing else is left.
pub proof fn header_names_are_read_one_by_one(a: Seq<char>, b: Seq<char>)
    ensures
        configured_names(a.push(',') + b) == configured_names(a) + configured_names(b),
        !a.contains(',') ==> configured_names(a) == if trimmed(a).len() > 0 {
            seq![trimmed(a)]
        } else {
            Seq::empty()
        },
{
    splitting_goes_on_behind_a_separator(a, ',', b);
    let each = |name: Seq<char>| trimmed(name);
    let first = split_on(a, ',').map_values(each);
    let second = split_on(b, ',').map_values(each);
    assert((split_on(a, ',') + split_on(b, ',')).map_values(each) =~= first + second);
    lemma_filter_of_two_halves(first, second);
    if !a.contains(',') {
        splitting_cuts_at_each_separator(Seq::empty(), ',', a);
        assert(first =~= seq![trimmed(a)]);
        reveal_with_fuel(Seq::filter, 2);
        assert(first.drop_last() =~= Seq::<Seq<char>>::empty());
        assert(configured_names(a) =~= if trimmed(a).len() > 0 {
            seq![trimmed(a)]
        } else {
            Seq::empty()
        });
    }
}

/// A header is found exactly where one of its name is there, whatever the case of its
/// letters, and the last such header is the one that is found.
pub proof fn header_is_found_where_it_is_there(headers: Seq<HttpHeaderView>, name: Seq<char>)
    ensures
        header_value(headers, name) is Some <==> exists|i: int|
            0 <= i < headers.len() && same_ignoring_case((#[trigger] headers[i]).name, name),
        header_value(headers, name) matches Some(value) ==> exists|i: int|
            0 <= i < headers.len() && same_ignoring_case((#[trigger] headers[i]).name, name)
                && headers[i].value == value,
    decreases headers.len(),
{
    if headers.len() > 0 {
        let rest = headers.drop_last();
        header_is_found_where_it_is_there(rest, name);
        assert(headers[headers.len() - 1] == headers.last());
        if header_value(rest, name) is Some {
            let i = choose|i: int|
                0 <= i < rest.len() && same_ignoring_case((#[trigger] rest[i]).name, name)
                    && rest[i].value == header_value(rest, name).unwrap();
            assert(headers[i] == rest[i]);
        }
        if exists|i: int|
            0 <= i < headers.len() && same_ignoring_case((#[trigger] headers[i]).name, name) {
            let i = choose|i: int|
                0 <= i < headers.len() && same_ignoring_case((#[trigger] headers[i]).name, name);
            if i < rest.len() {
                assert(rest[i] == headers[i]);
            }
        }
    }
}

/// The address in a header is the one behind the last comma, without the white space
/// around it. What stands before that comma does not matter.
pub proof fn address_behind_the_last_comma_is_taken(
    name: Seq<char>,
    before: Seq<char>,
    last: Seq<char>,
)
    requires
        !last.contains(','),
    ensures
        ({
            let format = ReverseProxyPeerIpHeaderFormat::LastAddress;
            let alone = ip_of_header_value(name, format, encode_utf8(last));
            &&& ip_of_header_value(name, format, encode_utf8(before.push(',') + last)) == alone
            &&& alone is Ok <==> ip_of(trimmed(last)) is Some
            &&& alone matches Ok(ip) ==> ip_of(trimmed(last)) == Some(ip)
            &&& alone matches Err(messages) ==> {
                &&& messages.len() == 2
                &&& messages[0] == "parse "@ + name + " header IP"@
                &&& messages[1] == "invalid IP address syntax"@
            }
        }),
{
    broadcast use {encode_utf8_valid_utf8, encode_utf8_decode_utf8};

    splitting_cuts_at_each_separator(before, ',', last);
    assert(seq![last].last() == last);
}

/// A header whose value is no text holds no address.
pub proof fn header_that_is_no_text_holds_no_address(name: Seq<char>, value: Seq<u8>)
    requires
        !valid_utf8(value),
    ensures
        ip_of_header_value(name, ReverseProxyPeerIpHeaderFormat::LastAddress, value) is Err,
{
}

/// The address of the peer is that in the first header that is there, in the order of
/// the configured names. It is an error if none is there, and another if no name is
/// configured.
pub proof fn first_configured_header_gives_the_address(
    header_names: Seq<char>,
    earlier: Seq<Seq<char>>,
    name: Seq<char>,
    later: Seq<Seq<char>>,
    format: ReverseProxyPeerIpHeaderFormat,
    headers: Seq<HttpHeaderView>,
)
    requires
        forall|i: int| 0 <= i < earlier.len() ==> header_value(headers, #[trigger] earlier[i]) is None,
    ensures
        configured_names(header_names) == earlier + seq![name] + later ==> (header_value(
            headers,
            name,
        ) matches Some(value) ==> forwarded_ip(header_names, format, headers)
            == ip_of_header_value(name, format, value)),
        configured_names(header_names) == earlier && earlier.len() > 0 ==> forwarded_ip(
            header_names,
            format,
            headers,
        ) == Err::<IpAddrView, Seq<Seq<char>>>(seq!["header not present"@]),
        configured_names(header_names).len() == 0 ==> forwarded_ip(header_names, format, headers)
            == Err::<IpAddrView, Seq<Seq<char>>>(seq!["no header name configured"@]),
{
    if header_value(headers, name) is Some {
        first_present_header_decides(earlier, name, later, format, headers);
    }
    lemma_no_header_is_present(earlier, format, headers);
}

proof fn lemma_no_header_is_present(
    names: Seq<Seq<char>>,
    format: ReverseProxyPeerIpHeaderFormat,
    headers: Seq<HttpHeaderView>,
)
    requires
        forall|i: int| 0 <= i < names.len() ==> header_value(headers, #[trigger] names[i]) is None,
    ensures
        ip_of_first_present(names, format, headers) is None,
    decreases names.len(),
{
    if names.len() > 0 {
        let rest = names.drop_first();
        assert forall|i: int| 0 <= i < rest.len() implies header_value(
            headers,
            #[trigger] rest[i],
        ) is None by {
            assert(rest[i] == names[i + 1]);
        }
        assert(header_value(headers, names[0]) is None);
        lemma_no_header_is_present(rest, format, headers);
    }
}

/// A request is read from its head, in which up to 32 headers may stand. A head that
/// is malformed is no request, and one that goes on needs more data.
pub proof fn requests_are_read_from_their_heads(config: Config, bytes: Seq<u8>)
    ensures
        http_head_of(bytes, 32) matches Err(message) ==> request_in(config, bytes) == Err::<
            ParsedRequestView,
            RequestParseErrorView,
        >(RequestParseErrorView::InvalidRequest(seq!["httparse"@, message])),
        http_head_of(bytes, 32) matches Ok(HttpHeadView::Partial) <==> request_in(config, bytes)
            == Err::<ParsedRequestView, RequestParseErrorView>(
            RequestParseErrorView::MoreDataNeeded,
        ),
        request_in(config, bytes) matches Ok(parsed) ==> (http_head_of(bytes, 32) matches Ok(
            HttpHeadView::Complete { consumed, .. },
        ) && parsed.consumed == consumed),
{
}

/// The tracker request in an accepted request is the one that its path makes, with
/// every field as it stands there, whatever the settings, the method and the headers.
/// Without a reverse proxy such a request is accepted, and tells no address. Behind
/// one it is accepted exactly where the headers give an address, and tells that.
pub proof fn tracker_request_is_the_one_in_the_path(
    config: Config,
    bytes: Seq<u8>,
    consumed: nat,
    word: Seq<char>,
    path: Seq<char>,
    headers: Seq<HttpHeaderView>,
    request: RequestView,
)
    requires
        http_head_of(bytes, 32) == Ok::<HttpHeadView, Seq<char>>(
            HttpHeadView::Complete { consumed, method: Some(word), path: Some(path), headers },
        ),
        word == "GET"@ || word == "HEAD"@,
        path != "/"@,
        path != "/index.html"@,
        tracker_request_of(path) == Ok::<RequestView, Seq<Seq<char>>>(request),
    ensures
        request_in(config, bytes) matches Ok(parsed) ==> {
            &&& parsed.request == HttpRequestView::Tracker(request)
            &&& parsed.consumed == consumed
            &&& parsed.method == if word == "GET"@ {
                HttpMethod::Get
            } else {
                HttpMethod::Head
            }
        },
        !config.network.runs_behind_reverse_proxy ==> (request_in(config, bytes) matches Ok(parsed)
            && parsed.opt_peer_ip is None),
        config.network.runs_behind_reverse_proxy ==> match forwarded_ip(
            config.network.reverse_proxy_ip_header_name@,
            config.network.reverse_proxy_ip_header_format,
            headers,
        ) {
            Ok(ip) => request_in(config, bytes) matches Ok(parsed) && parsed.opt_peer_ip == Some(
                ip,
            ),
            Err(messages) => request_in(config, bytes) == Err::<
                ParsedRequestView,
                RequestParseErrorView,
            >(RequestParseErrorView::RequiredPeerIpHeaderMissing(messages)),
        },
{
    reveal_strlit("GET");
    reveal_strlit("HEAD");
}

/// What a caller gets of an accepted tracker request is the request that its path
/// makes: of an announce every field, of a scrape every torrent in its order.
pub proof fn accepted_request_is_handed_out_unchanged(
    config: Config,
    path: Seq<char>,
    method: HttpMethod,
    consumed: nat,
    headers: Seq<HttpHeaderView>,
    parsed: ParsedRequest,
)
    requires
        Ok::<ParsedRequestView, RequestParseErrorView>(parsed@) == tracker_outcome(
            config,
            method,
            consumed,
            headers,
            tracker_request_of(path),
        ),
    ensures
        parsed.method == method,
        parsed.consumed == consumed,
        tracker_request_of(path) matches Ok(RequestView::Announce(announce)) ==> {
            &&& parsed.request matches HttpRequest::Tracker(Request::Announce(request))
            &&& request.info_hash.0@ == announce.info_hash
            &&& request.peer_id.0@ == announce.peer_id
            &&& request.port == announce.port
            &&& request.bytes_uploaded == announce.bytes_uploaded
            &&& request.bytes_downloaded == announce.bytes_downloaded
            &&& request.bytes_left == announce.bytes_left
            &&& request.event is Some <==> announce.event is Some
            &&& request.event matches Some(event) ==> announce.event == Some(event@)
            &&& request.numwant == announce.numwant
            &&& request.key is Some <==> announce.key is Some
            &&& request.key matches Some(key) ==> announce.key == Some(key@)
        },
        tracker_request_of(path) matches Ok(RequestView::Scrape(hashes)) ==> {
            &&& parsed.request matches HttpRequest::Tracker(Request::Scrape(request))
            &&& request.info_hashes.len() == hashes.len()
            &&& forall|i: int|
                0 <= i < hashes.len() ==> (#[trigger] request.info_hashes@[i]).0@ == hashes[i]
        },
        tracker_request_of(path) is Ok,
{
    if let HttpRequest::Tracker(Request::Scrape(request)) = parsed.request {
        assert(request@.len() == request.info_hashes.len());
        assert forall|i: int| 0 <= i < request.info_hashes.len() implies (
        #[trigger] request.info_hashes@[i]).0@ == request@[i] by {}
    }
}

/// The index page is asked for by exactly two paths, with either method, whatever the
/// settings and the headers, and tells no address.
pub proof fn index_page_has_two_paths(
    config: Config,
    bytes: Seq<u8>,
    consumed: nat,
    word: Seq<char>,
    path: Seq<char>,
    headers: Seq<HttpHeaderView>,
)
    requires
        http_head_of(bytes, 32) == Ok::<HttpHeadView, Seq<char>>(
            HttpHeadView::Complete { consumed, method: Some(word), path: Some(path), headers },
        ),
        word == "GET"@ || word == "HEAD"@,
    ensures
        path == "/"@ || path == "/index.html"@ ==> request_in(config, bytes) == Ok::<
            ParsedRequestView,
            RequestParseErrorView,
        >(
            ParsedRequestView {
                request: HttpRequestView::StaticIndex,
                method: if word == "GET"@ {
                    HttpMethod::Get
                } else {
                    HttpMethod::Head
                },
                consumed,
                opt_peer_ip: None,
            },
        ),
        request_in(config, bytes) matches Ok(parsed) && parsed.request is StaticIndex ==> path
            == "/"@ || path == "/index.html"@,
{
    reveal_strlit("GET");
    reveal_strlit("HEAD");
}

/// A request with any other method is not served, whatever else it says. So is one
/// whose path makes no request, and its refusal says why.
pub proof fn other_requests_are_refused(
    config: Config,
    bytes: Seq<u8>,
    consumed: nat,
    method: Option<Seq<char>>,
    path: Option<Seq<char>>,
    headers: Seq<HttpHeaderView>,
)
    requires
        http_head_of(bytes, 32) == Ok::<HttpHeadView, Seq<char>>(
            HttpHeadView::Complete { consumed, method, path, headers },
        ),
    ensures
        request_in(config, bytes) == Err::<ParsedRequestView, RequestParseErrorView>(
            RequestParseErrorView::MethodNotAllowed,
        ) <==> method != Some("GET"@) && method != Some("HEAD"@),
        method == Some("GET"@) || method == Some("HEAD"@) ==> {
            &&& path is None ==> request_in(config, bytes) == Err::<
                ParsedRequestView,
                RequestParseErrorView,
            >(RequestParseErrorView::InvalidRequest(seq!["no http path"@]))
            &&& path matches Some(path) ==> path != "/"@ && path != "/index.html"@ ==> (
            tracker_request_of(path) matches Err(messages) ==> request_in(config, bytes) == Err::<
                ParsedRequestView,
                RequestParseErrorView,
            >(RequestParseErrorView::InvalidRequest(messages)))
        },
{
}

/// What a caller gets of reading a request is what reading gives: the request with its
/// method, its length and the address that it tells, or the reason why there is none.
pub proof fn results_of_reading_are_told_apart(result: Result<ParsedRequest, RequestParseError>)
    ensures
        parse_result(result) matches Ok(parsed) ==> {
            &&& result matches Ok(same)
            &&& same.request is StaticIndex <==> parsed.request is StaticIndex
            &&& same.request matches HttpRequest::Tracker(request) ==> parsed.request
                == HttpRequestView::Tracker(request@)
            &&& same.method == parsed.method
            &&& same.consumed == parsed.consumed
            &&& same.opt_peer_ip is Some <==> parsed.opt_peer_ip is Some
            &&& same.opt_peer_ip matches Some(IpAddr::V4(octets)) ==> parsed.opt_peer_ip == Some(
                IpAddrView::V4(octets@),
            )
            &&& same.opt_peer_ip matches Some(IpAddr::V6(groups)) ==> parsed.opt_peer_ip == Some(
                IpAddrView::V6(groups@),
            )
        },
        parse_result(result) matches Err(RequestParseErrorView::MoreDataNeeded) <==> result matches
            Err(RequestParseError::MoreDataNeeded),
        parse_result(result) matches Err(RequestParseErrorView::MethodNotAllowed) <==> result matches
            Err(RequestParseError::MethodNotAllowed),
        parse_result(result) matches Err(RequestParseErrorView::InvalidRequest(messages)) ==> (
        result matches Err(RequestParseError::InvalidRequest(chain)) && chain@ == messages),
        parse_result(result) matches Err(
            RequestParseErrorView::RequiredPeerIpHeaderMissing(messages),
        ) ==> (result matches Err(RequestParseError::RequiredPeerIpHeaderMissing(chain)) && chain@
            == messages),
{
}

/// One header name is configured rather than a list exactly where something else than
/// white space is configured and no comma is in it; the name is then what is left
/// without the white space around it.
pub proof fn single_name_has_no_comma(header_names: Seq<char>)
    ensures
        single_name(header_names) is Some <==> !header_names.contains(',') && trimmed(
            header_names,
        ).len() > 0,
        single_name(header_names) matches Some(name) ==> name == trimmed(header_names),
{
    lemma_trimming_keeps_separators(header_names, ',');
}

} // verus!
