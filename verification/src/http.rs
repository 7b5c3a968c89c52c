//! The head of an HTTP request: its request line and headers.

use vstd::prelude::*;

verus! {

/// One header of a request.
#[derive(Clone, Debug, PartialEq, Eq)]
pub struct HttpHeader {
    pub name: String,
    pub value: Vec<u8>,
}

/// What an [`HttpHeader`] stands for.
pub struct HttpHeaderView {
    pub name: Seq<char>,
    pub value: Seq<u8>,
}

impl View for HttpHeader {
    type V = HttpHeaderView;

    open spec fn view(&self) -> HttpHeaderView {
        HttpHeaderView { name: self.name@, value: self.value@ }
    }
}

/// What a list of headers stands for.
pub open spec fn header_views(headers: Seq<HttpHeader>) -> Seq<HttpHeaderView> {
    headers.map_values(|header: HttpHeader| header@)
}

/// The head of a request, as far as it has arrived.
#[derive(Clone, Debug, PartialEq, Eq)]
pub enum HttpHead {
    /// The head is complete and takes up the first `consumed` bytes.
    Complete {
        consumed: usize,
        method: Option<String>,
        path: Option<String>,
        headers: Vec<HttpHeader>,
    },
    /// The head goes on behind the end of the buffer.
    Partial,
}

/// What an [`HttpHead`] stands for.
pub enum HttpHeadView {
    Complete {
        consumed: nat,
        method: Option<Seq<char>>,
        path: Option<Seq<char>>,
        headers: Seq<HttpHeaderView>,
    },
    Partial,
}

/// What an optional string holds.
pub open spec fn option_text(text: Option<String>) -> Option<Seq<char>> {
    match text {
        Some(text) => Some(text@),
        None => None,
    }
}

impl View for HttpHead {
    type V = HttpHeadView;

    open spec fn view(&self) -> HttpHeadView {
        match *self {
            HttpHead::Complete { consumed, method, path, headers } => HttpHeadView::Complete {
                consumed: consumed as nat,
                method: option_text(method),
                path: option_text(path),
                headers: header_views(headers@),
            },
            HttpHead::Partial => HttpHeadView::Partial,
        }
    }
}

/// What the result of reading a head stands for.
pub open spec fn head_result(result: Result<HttpHead, String>) -> Result<HttpHeadView, Seq<char>> {
    match result {
        Ok(head) => Ok(head@),
        Err(message) => Err(message@),
    }
}

/// Whether a head has arrived in full.
pub open spec fn is_complete(head: Result<HttpHeadView, Seq<char>>) -> bool {
    head matches Ok(HttpHeadView::Complete { .. })
}

/// Whether the head goes on behind the bytes that have arrived.
pub open spec fn is_partial(head: Result<HttpHeadView, Seq<char>>) -> bool {
    head matches Ok(HttpHeadView::Partial)
}

/// What `httparse::Request::parse` makes of `buffer`, with room for
/// `max_headers` headers.
pub uninterp spec fn http_head_of(buffer: Seq<u8>, max_headers: nat) -> Result<
    HttpHeadView,
    Seq<char>,
>;

/// Calls `httparse::Request::parse` with room for `max_headers` headers. What it
/// finds depends on the bytes and on that number alone. A head that it reports as
/// complete takes up at least one byte and no more bytes than there are. It goes
/// through the bytes from the front and stops at the end of the head. So where a
/// complete head stands at the front, it finds that head whatever follows; it does
/// so too where other bytes follow the head, or none; and of fewer bytes than those
/// of the head it reports that the head goes on.
#[verifier::external_body]
pub(crate) fn parse_http_head(buffer: &[u8], max_headers: usize) -> (result: Result<
    HttpHead,
    String,
>)
    requires
        max_headers <= 0xffff,
    ensures
        head_result(result) == http_head_of(buffer@, max_headers as nat),
        result matches Ok(HttpHead::Complete { consumed, .. }) ==> 0 < consumed <= buffer@.len(),
        forall|k: int|
            0 <= k <= buffer@.len() ==> is_complete(
                #[trigger] http_head_of(buffer@.take(k), max_headers as nat),
            ) ==> head_result(result) == http_head_of(buffer@.take(k), max_headers as nat),
        result matches Ok(HttpHead::Complete { consumed, .. }) ==> forall|k: int|
            0 <= k < consumed ==> is_partial(
                #[trigger] http_head_of(buffer@.take(k), max_headers as nat),
            ),
        result matches Ok(HttpHead::Complete { consumed, .. }) ==> forall|rest: Seq<u8>|
            head_result(result) == #[trigger] http_head_of(
                buffer@.take(consumed as int) + rest,
                max_headers as nat,
            ),
{
    let mut headers = vec![httparse::EMPTY_HEADER; max_headers];
    let mut request = httparse::Request::new(&mut headers);
    match request.parse(buffer) {
        Ok(httparse::Status::Complete(consumed)) => Ok(HttpHead::Complete {
            consumed,
            method: request.method.map(str::to_string),
            path: request.path.map(str::to_string),
            headers: request.headers.iter().map(
                |h| HttpHeader { name: h.name.to_string(), value: h.value.to_vec() },
            ).collect(),
        }),
        Ok(httparse::Status::Partial) => Ok(HttpHead::Partial),
        Err(err) => Err(err.to_string()),
    }
}

/// What is read of a head is handed on as it is: its length, method and path, and every
/// header in its order, or the message of the error.
pub proof fn heads_are_handed_on_unchanged(result: Result<HttpHead, String>)
    ensures
        result matches Ok(HttpHead::Complete { consumed, method, path, headers }) ==> {
            &&& head_result(result) matches Ok(
                HttpHeadView::Complete {
                    consumed: same_length,
                    method: same_method,
                    path: same_path,
                    headers: same_headers,
                },
            )
            &&& same_length == consumed
            &&& same_method is Some <==> method is Some
            &&& method matches Some(word) ==> same_method == Some(word@)
            &&& same_path is Some <==> path is Some
            &&& path matches Some(path) ==> same_path == Some(path@)
            &&& same_headers.len() == headers.len()
            &&& forall|i: int|
                0 <= i < headers.len() ==> (#[trigger] same_headers[i]).name == headers@[i].name@
                    && same_headers[i].value == headers@[i].value@
        },
        result matches Ok(HttpHead::Partial) ==> head_result(result) == Ok::<
            HttpHeadView,
            Seq<char>,
        >(HttpHeadView::Partial),
        result matches Err(message) ==> head_result(result) == Err::<HttpHeadView, Seq<char>>(
            message@,
        ),
{
}

} // verus!
