//! The way of a request through the pool: from the editor to a server and back.

use crate::connection_action::bridge_text;
use crate::connection_handle::{
    is_settled, request_id_after, send_error, HandleView, NotificationSendResult, ResponseNews,
};
use crate::connection_key::{ConnectionKey, KeyView};
use crate::connection_state::ConnectionState;
use crate::error::{ErrorKind, PoolError};
use crate::host_contents::{latest_content, HostView};
use crate::opening::{
    claim_dropped_if, claim_stands, is_open, open_asked, open_sent, OpenClaim, OpenStep,
};
use crate::outside::{parse_url, parsed_url};
use crate::pool::LanguageServerPool;
use crate::pool_state::PoolView;
use crate::region::{Position, PositionVerdict, RegionOffset};
use crate::text::joined;
use crate::upstream::{request_added, request_count, request_taken, UpstreamId, UpstreamView};
use crate::virtual_uri::{UriView, VirtualDocumentUri};
use vstd::prelude::*;

verus! {

/// A request for a region of a host document, on its way to a connection.
pub struct BridgeRequest {
    /// The connection that the request is for.
    pub key: ConnectionKey,
    pub handle: u64,
    pub host_uri: String,
    pub virtual_uri: VirtualDocumentUri,
    /// The content of the region as the request knows it.
    pub content: String,
    /// How the editor names the request, if it comes from the editor.
    pub upstream_id: Option<UpstreamId>,
    /// The lifetime of the host document that the request belongs to, if it
    /// insists on one.
    pub expected_incarnation: Option<u64>,
}

/// The mathematical content of a [`BridgeRequest`].
pub struct RequestView {
    pub key: KeyView,
    pub handle: u64,
    pub host: Seq<char>,
    pub uri: UriView,
    pub content: Seq<char>,
    pub upstream: Option<UpstreamView>,
    pub expected: Option<u64>,
}

impl View for BridgeRequest {
    type V = RequestView;

    open spec fn view(&self) -> RequestView {
        RequestView {
            key: self.key@,
            handle: self.handle,
            host: self.host_uri@,
            uri: self.virtual_uri@,
            content: self.content@,
            upstream: match self.upstream_id {
                Some(id) => Some(id@),
                None => None,
            },
            expected: self.expected_incarnation,
        }
    }
}

/// What is to be done to have the document of a request open.
#[derive(Debug)]
pub enum OpeningStep {
    /// Nothing: the request can be sent.
    AlreadyOpen,
    /// The server is to be told of the document with this content.
    SendDidOpen(OpenClaim, String),
}

/// What a transformer of responses needs to lead them back to the host document.
#[derive(Debug)]
pub struct BridgeResponseContext {
    pub virtual_uri_string: String,
    pub host_uri: String,
    pub offset: RegionOffset,
}

/// The content that a server is told of when a document is opened: the latest one
/// that is known, or else the one that the caller has.
pub open spec fn content_for(
    contents: Map<Seq<char>, HostView>,
    host: Seq<char>,
    uri: UriView,
    given: Seq<char>,
) -> Seq<char> {
    match latest_content(contents, host, uri.language, uri.region_id) {
        Some(content) => content,
        None => given,
    }
}

/// The pool with the editor's request noted for its connection.
pub open spec fn noted(pool: PoolView, request: RequestView) -> PoolView {
    match request.upstream {
        Some(id) => PoolView {
            requests: request_added(pool.requests, id, request.key),
            ..pool
        },
        None => pool,
    }
}

/// The pool with the editor's request not noted for its connection any more.
pub open spec fn unnoted(pool: PoolView, request: RequestView) -> PoolView {
    match request.upstream {
        Some(id) => PoolView {
            requests: request_taken(pool.requests, id, request.key),
            ..pool
        },
        None => pool,
    }
}

/// The pool with one more request number of a connection used up.
pub open spec fn numbered(pool: PoolView, key: KeyView) -> PoolView {
    PoolView {
        connections: pool.connections.insert(
            key,
            HandleView {
                next_request_id: request_id_after(pool.connections[key].next_request_id),
                ..pool.connections[key]
            },
        ),
        ..pool
    }
}

/// The error of a request whose connection was replaced.
pub open spec fn replaced_text(key: KeyView) -> Seq<char> {
    "connection "@ + key.shown() + " was replaced before request send"@
}

/// Why a request for a host document cannot go ahead, if so: the document is
/// closed, or is in another lifetime than the request.
pub open spec fn lifecycle_error(
    contents: Map<Seq<char>, HostView>,
    host: Seq<char>,
    expected: Option<u64>,
) -> Option<Seq<char>> {
    if !contents.contains_key(host) {
        Some("bridge: host document is closed: "@ + host)
    } else if expected is Some && expected != Some(contents[host].incarnation) {
        Some("bridge: host document incarnation changed before request: "@ + host)
    } else {
        None
    }
}

impl LanguageServerPool {
    /// The lifetime of a host document that a request belongs to. A request for a
    /// closed document is refused, and so is one that insists on another lifetime.
    pub fn request_host_lifecycle(&self, host_uri: &str, expected_incarnation: Option<u64>) -> (lifetime:
        Result<u64, PoolError>)
        requires
            self.wf(),
        ensures
            match lifecycle_error(self@.contents, host_uri@, expected_incarnation) {
                Some(text) => lifetime is Err && lifetime->Err_0.says(
                    ErrorKind::NotConnected,
                    text,
                ),
                None => lifetime == Ok::<u64, PoolError>(self@.contents[host_uri@].incarnation),
            },
    {
        let current: u64 = match self.contents.current_host_incarnation(host_uri) {
            Some(current) => current,
            None => {
                return Err(
                    PoolError::new(
                        ErrorKind::NotConnected,
                        joined("bridge: host document is closed: ", host_uri),
                    ),
                );
            },
        };
        if let Some(expected) = expected_incarnation {
            if expected != current {
                return Err(
                    PoolError::new(
                        ErrorKind::NotConnected,
                        joined(
                            "bridge: host document incarnation changed before request: ",
                            host_uri,
                        ),
                    ),
                );
            }
        }
        Ok(current)
    }

    /// The address under which routing rules for a virtual document are looked
    /// up.
    pub fn routing_uri(virtual_uri: &VirtualDocumentUri) -> (uri: Result<String, PoolError>)
        ensures
            match parsed_url(virtual_uri@.uri) {
                Ok(text) => uri is Ok && uri->Ok_0@ == text,
                Err(text) => uri is Err && uri->Err_0.says(ErrorKind::InvalidData, text),
            },
    {
        match parse_url(virtual_uri.uri()) {
            Ok(text) => Ok(text),
            Err(text) => Err(PoolError::new(ErrorKind::InvalidData, text)),
        }
    }

    /// Admits a request: the host document is in the right lifetime, and the
    /// virtual document has an address. Gives back that address.
    pub fn admit_request(&self, request: &BridgeRequest) -> (routing: Result<String, PoolError>)
        requires
            self.wf(),
        ensures
            match lifecycle_error(self@.contents, request@.host, request@.expected) {
                Some(text) => routing is Err && routing->Err_0.says(ErrorKind::NotConnected, text),
                None => match parsed_url(request@.uri.uri) {
                    Ok(text) => routing is Ok && routing->Ok_0@ == text,
                    Err(text) => routing is Err && routing->Err_0.says(
                        ErrorKind::InvalidData,
                        text,
                    ),
                },
            },
    {
        match self.request_host_lifecycle(
            request.host_uri.as_str(),
            request.expected_incarnation,
        ) {
            Ok(_) => Self::routing_uri(&request.virtual_uri),
            Err(error) => Err(error),
        }
    }

    fn replaced_error(key: &ConnectionKey) -> (error: PoolError)
        ensures
            error.says(ErrorKind::NotConnected, replaced_text(key@)),
    {
        let text = joined("connection ", key.to_string().as_str());
        PoolError::new(
            ErrorKind::NotConnected,
            joined(text.as_str(), " was replaced before request send"),
        )
    }

    fn unnote(&mut self, request: &BridgeRequest)
        requires
            old(self).wf(),
        ensures
            final(self).wf(),
            final(self)@ == unnoted(old(self)@, request@),
    {
        if let Some(id) = &request.upstream_id {
            self.requests.unregister_upstream_request(id, &request.key);
        }
    }

    /// Starts a request on its connection, given whether routing allows it. The
    /// editor's request is noted for the connection before the request gets its
    /// number, so that a cancellation that comes in between finds it.
    pub fn start_request(&mut self, request: &BridgeRequest, enabled: Option<bool>) -> (started:
        Result<i64, PoolError>)
        requires
            old(self).wf(),
        ensures
            final(self).wf(),
            if enabled == Some(false) {
                &&& started is Err
                &&& started->Err_0.says(
                    ErrorKind::NotConnected,
                    "virtual document routing disabled on "@ + request@.key.shown(),
                )
                &&& final(self)@ == old(self)@
            } else if !old(self)@.live(request@.key, request@.handle) {
                &&& started is Err
                &&& started->Err_0.says(ErrorKind::NotConnected, replaced_text(request@.key))
                &&& final(self)@ == old(self)@
            } else {
                &&& started == Ok::<i64, PoolError>(
                    old(self)@.connections[request@.key].next_request_id,
                )
                &&& final(self)@ == numbered(noted(old(self)@, request@), request@.key)
            },
    {
        if let Some(false) = enabled {
            return Err(
                PoolError::new(
                    ErrorKind::NotConnected,
                    joined(
                        "virtual document routing disabled on ",
                        request.key.to_string().as_str(),
                    ),
                ),
            );
        }
        if !self.is_live(&request.key, request.handle) {
            return Err(Self::replaced_error(&request.key));
        }
        if let Some(id) = &request.upstream_id {
            self.requests.register_upstream_request(id.clone(), &request.key);
        }
        let mut number: i64 = 0;
        if let Some(handle) = self.connections.get_mut(&request.key) {
            number = handle.next_request_id();
        }
        assert(self@ =~= numbered(noted(old(self)@, request@), request@.key));
        Ok(number)
    }

    /// Settles the registration of a request's number with those who wait for
    /// responses. Says whether the watch over the server's silence is to start.
    pub fn request_registered(
        &mut self,
        request: &BridgeRequest,
        number: i64,
        accepted: bool,
        was_empty: bool,
    ) -> (registered: Result<bool, PoolError>)
        requires
            old(self).wf(),
        ensures
            final(self).wf(),
            if accepted {
                &&& registered == Ok::<bool, PoolError>(
                    was_empty && old(self)@.live(request@.key, request@.handle)
                        && old(self)@.connections[request@.key].state is Ready,
                )
                &&& final(self)@ == old(self)@
            } else {
                &&& registered is Err
                &&& registered->Err_0.says(ErrorKind::Other, "bridge: duplicate request ID"@)
                &&& final(self)@ == unnoted(old(self)@, request@)
            },
    {
        if !accepted {
            self.unnote(request);
            return Err(PoolError::of(ErrorKind::Other, "bridge: duplicate request ID"));
        }
        let watch = match self.connections.get(&request.key) {
            Some(handle) => handle.id() == request.handle && (match handle.register_request(
                number,
                accepted,
                was_empty,
            ) {
                Ok((_, watch)) => watch,
                Err(_) => false,
            }),
            None => false,
        };
        Ok(watch)
    }

    /// Asks for a document to be open on a connection. Where the server has to be
    /// told of it, gives the content to tell: the latest one that is known, or
    /// else the given one.
    pub fn ensure_document_opened(
        &mut self,
        host_uri: &str,
        virtual_uri: &VirtualDocumentUri,
        content: &str,
        key: &ConnectionKey,
    ) -> (step: OpeningStep)
        requires
            old(self).wf(),
        ensures
            final(self).wf(),
            final(self)@ == (PoolView {
                documents: open_asked(old(self)@.documents, host_uri@, virtual_uri@, key@),
                ..old(self)@
            }),
            match step {
                OpeningStep::AlreadyOpen => is_open(
                    old(self)@.documents,
                    virtual_uri@.uri,
                    key@,
                ),
                OpeningStep::SendDidOpen(claim, told) => !is_open(
                    old(self)@.documents,
                    virtual_uri@.uri,
                    key@,
                ) && claim.number() == old(self)@.documents.next && told@ == content_for(
                    old(self)@.contents,
                    host_uri@,
                    virtual_uri@,
                    content@,
                ),
            },
    {
        match self.documents.ensure_document_opened(host_uri, virtual_uri, key) {
            OpenStep::AlreadyOpen => OpeningStep::AlreadyOpen,
            OpenStep::SendDidOpen(claim) => {
                let told = match self.contents.latest(
                    host_uri,
                    virtual_uri.language(),
                    virtual_uri.region_id(),
                ) {
                    Some(latest) => latest.clone(),
                    None => content.to_owned(),
                };
                OpeningStep::SendDidOpen(claim, told)
            },
        }
    }

    /// Has the document of a request open on its connection, if the connection is
    /// still the one that the pool holds.
    pub fn open_for_request(&mut self, request: &BridgeRequest) -> (step: Result<
        OpeningStep,
        PoolError,
    >)
        requires
            old(self).wf(),
        ensures
            final(self).wf(),
            if !old(self)@.live(request@.key, request@.handle) {
                &&& step is Err
                &&& step->Err_0.says(ErrorKind::NotConnected, replaced_text(request@.key))
                &&& final(self)@ == unnoted(old(self)@, request@)
            } else {
                &&& step is Ok
                &&& final(self)@ == (PoolView {
                    documents: open_asked(
                        old(self)@.documents,
                        request@.host,
                        request@.uri,
                        request@.key,
                    ),
                    ..old(self)@
                })
                &&& match step->Ok_0 {
                    OpeningStep::AlreadyOpen => is_open(
                        old(self)@.documents,
                        request@.uri.uri,
                        request@.key,
                    ),
                    OpeningStep::SendDidOpen(claim, told) => !is_open(
                        old(self)@.documents,
                        request@.uri.uri,
                        request@.key,
                    ) && claim.number() == old(self)@.documents.next && told@ == content_for(
                        old(self)@.contents,
                        request@.host,
                        request@.uri,
                        request@.content,
                    ),
                }
            },
    {
        if !self.is_live(&request.key, request.handle) {
            self.unnote(request);
            return Err(Self::replaced_error(&request.key));
        }
        Ok(
            self.ensure_document_opened(
                request.host_uri.as_str(),
                &request.virtual_uri,
                request.content.as_str(),
                &request.key,
            ),
        )
    }

    /// Settles telling the server of the document of a request. Where the document
    /// does not count as open, the request is over.
    pub fn opened_for_request(
        &mut self,
        request: &BridgeRequest,
        claim: OpenClaim,
        told: &str,
        sent: Result<(), PoolError>,
    ) -> (opened: Result<(), PoolError>)
        requires
            old(self).wf(),
        ensures
            final(self).wf(),
            match sent {
                Err(error) => opened == Err::<(), PoolError>(error) && final(self)@ == unnoted(
                    PoolView {
                        documents: claim_dropped_if(
                            old(self)@.documents,
                            request@.host,
                            request@.uri.uri,
                            request@.key,
                            claim.number(),
                        ),
                        ..old(self)@
                    },
                    request@,
                ),
                Ok(_) => if claim_stands(
                    old(self)@.documents,
                    request@.uri.uri,
                    request@.key,
                    claim.number(),
                ) {
                    opened is Ok && final(self)@ == (PoolView {
                        documents: open_sent(
                            old(self)@.documents,
                            request@.uri.uri,
                            request@.key,
                            told@,
                        ),
                        ..old(self)@
                    })
                } else {
                    opened is Err && opened->Err_0.says(
                        ErrorKind::Other,
                        "bridge: didOpen claim invalidated during enqueue"@,
                    ) && final(self)@ == unnoted(old(self)@, request@)
                },
            },
    {
        let opened = self.documents.settle_open(
            request.host_uri.as_str(),
            &request.virtual_uri,
            &request.key,
            claim,
            told,
            sent,
        );
        if opened.is_err() {
            self.unnote(request);
        }
        opened
    }

    /// Settles queueing a request. Where it was not queued, the request is over.
    pub fn request_sent(&mut self, request: &BridgeRequest, result: NotificationSendResult) -> (sent:
        Result<(), PoolError>)
        requires
            old(self).wf(),
        ensures
            final(self).wf(),
            match send_error(result) {
                Some(error) => sent is Err && sent->Err_0.says(
                    ErrorKind::Other,
                    bridge_text(error),
                ) && final(self)@ == unnoted(old(self)@, request@),
                None => sent is Ok && final(self)@ == old(self)@,
            },
    {
        match result.send_request() {
            Ok(_) => Ok(()),
            Err(error) => {
                self.unnote(request);
                Err(error.into_error())
            },
        }
    }

    /// Ends a request, given what became of waiting for its response: gives the
    /// response or the error, and whether the request must be taken off the list
    /// of pending ones. Where the server fell silent its connection has failed.
    pub fn finish_request(
        &mut self,
        request: &BridgeRequest,
        news: ResponseNews,
        fell_silent: bool,
    ) -> (settled: (Result<serde_json::Value, PoolError>, bool))
        requires
            old(self).wf(),
        ensures
            final(self).wf(),
            is_settled(news, settled.0),
            settled.1 == (news is TimedOut),
            final(self)@ == unnoted(
                if fell_silent && !(news is TimedOut) {
                    old(self)@.with_state_if_live(
                        request@.key,
                        request@.handle,
                        ConnectionState::Failed,
                    )
                } else {
                    old(self)@
                },
                request@,
            ),
    {
        let in_time = !matches!(news, ResponseNews::TimedOut);
        if fell_silent && in_time {
            self.set_state(&request.key, request.handle, ConnectionState::Failed);
        }
        self.unnote(request);
        news.settle()
    }
}

impl BridgeRequest {
    /// What a transformer of the response needs.
    pub fn response_context(&self, offset: RegionOffset) -> (context: BridgeResponseContext)
        ensures
            context.virtual_uri_string@ == self@.uri.uri,
            context.host_uri@ == self@.host,
            context.offset == offset,
    {
        BridgeResponseContext {
            virtual_uri_string: self.virtual_uri.to_uri_string(),
            host_uri: self.host_uri.clone(),
            offset,
        }
    }
}

/// Whether a request about a place goes to the server at all. One about a place
/// outside the region is answered with an empty result instead.
pub fn position_reaches_server(position: Position, offset: &RegionOffset, region_end: Position) -> (reaches:
    bool)
    ensures
        reaches == (crate::region::verdict_on(position, offset@, region_end) is Within),
{
    matches!(offset.judge(position, region_end), PositionVerdict::Within)
}

/// A request that ends takes back what noting it did, however it ends, as far as
/// one can count: afterwards the editor's requests are what they were.
pub proof fn requests_leave_no_note(pool: PoolView, request: RequestView)
    requires
        crate::upstream::requests_are_live(pool.requests),
        request.upstream matches Some(id) ==> request_count(pool.requests, id, request.key)
            < usize::MAX,
    ensures
        unnoted(numbered(noted(pool, request), request.key), request).requests == pool.requests,
        unnoted(noted(pool, request), request) == pool,
{
    match request.upstream {
        Some(id) => {
            crate::upstream::taking_undoes_adding(pool.requests, id, request.key);
        },
        None => {},
    }
}

/// Each request on a connection has a larger number than those before it, as long
/// as there are numbers left.
pub proof fn request_numbers_differ(pool: PoolView, key: KeyView)
    requires
        pool.connections.contains_key(key),
        pool.connections[key].next_request_id < i64::MAX,
    ensures
        numbered(pool, key).connections[key].next_request_id
            > pool.connections[key].next_request_id,
{
}

/// A request of an earlier lifetime of its host document is refused after the
/// document was opened again, and every request is refused while it is closed.
pub proof fn requests_stay_in_their_lifetime(
    contents: Map<Seq<char>, HostView>,
    host: Seq<char>,
    earlier: u64,
    later: u64,
)
    requires
        earlier != later,
    ensures
        lifecycle_error(
            crate::host_contents::host_opened(contents, host, later),
            host,
            Some(earlier),
        ) is Some,
        lifecycle_error(
            crate::host_contents::host_opened(contents, host, later),
            host,
            None,
        ) is None,
        lifecycle_error(
            crate::host_contents::host_closed(
                crate::host_contents::host_opened(contents, host, later),
                host,
                later,
            ),
            host,
            None,
        ) is Some,
{
}

/// A document that is opened late is opened with the content that was recorded in
/// the meantime.
pub proof fn late_openings_use_the_latest_content(
    contents: Map<Seq<char>, HostView>,
    host: Seq<char>,
    incarnation: u64,
    uri: UriView,
    content: Seq<char>,
    given: Seq<char>,
)
    requires
        crate::host_contents::in_lifetime(contents, host, incarnation),
    ensures
        content_for(
            crate::host_contents::content_recorded(
                contents,
                host,
                incarnation,
                uri.language,
                uri.region_id,
                content,
            ),
            host,
            uri,
            given,
        ) == content,
{
}

/// A request goes ahead exactly where its host document is open and the request does
/// not insist on another lifetime.
pub proof fn requests_go_ahead_in_their_lifetime(
    contents: Map<Seq<char>, HostView>,
    host: Seq<char>,
    expected: Option<u64>,
)
    ensures
        lifecycle_error(contents, host, expected) is None <==> contents.contains_key(host) && (
        expected is None || expected == Some(contents[host].incarnation)),
{
}

/// A document is opened with the latest content that is recorded for its region, and
/// with what the caller has where none is. What is recorded for another region plays
/// no part.
pub proof fn recorded_contents_come_first(
    contents: Map<Seq<char>, HostView>,
    other: Map<Seq<char>, HostView>,
    host: Seq<char>,
    uri: UriView,
    given: Seq<char>,
)
    ensures
        latest_content(contents, host, uri.language, uri.region_id) is None ==> content_for(
            contents,
            host,
            uri,
            given,
        ) == given,
        latest_content(contents, host, uri.language, uri.region_id) matches Some(recorded)
            ==> content_for(contents, host, uri, given) == recorded,
        latest_content(contents, host, uri.language, uri.region_id) == latest_content(
            other,
            host,
            uri.language,
            uri.region_id,
        ) ==> content_for(contents, host, uri, given) == content_for(other, host, uri, given),
        !contents.contains_key(host) ==> content_for(contents, host, uri, given) == given,
{
}

/// Noting a request and numbering it change nothing else: a note concerns the
/// editor's requests alone, and only where the editor named the request; a number
/// concerns its connection alone, whose next one it uses up.
pub proof fn starting_a_request_changes_little(
    pool: PoolView,
    request: RequestView,
    key: KeyView,
    other: KeyView,
)
    ensures
        request.upstream is None ==> noted(pool, request) == pool && unnoted(pool, request) == pool,
        noted(pool, request) == (PoolView { requests: noted(pool, request).requests, ..pool }),
        unnoted(pool, request) == (PoolView { requests: unnoted(pool, request).requests, ..pool }),
        request.upstream matches Some(id) ==> request_count(pool.requests, id, request.key)
            < usize::MAX ==> request_count(noted(pool, request).requests, id, request.key)
            == request_count(pool.requests, id, request.key) + 1,
        numbered(pool, key) == (PoolView { connections: numbered(pool, key).connections, ..pool }),
        numbered(pool, key).connections[key] == (HandleView {
            next_request_id: numbered(pool, key).connections[key].next_request_id,
            ..pool.connections[key]
        }),
        pool.connections[key].next_request_id < i64::MAX ==> numbered(
            pool,
            key,
        ).connections[key].next_request_id == pool.connections[key].next_request_id + 1,
        other != key ==> numbered(pool, key).connections.contains_key(other)
            == pool.connections.contains_key(other) && numbered(pool, key).connections[other]
            == pool.connections[other],
{
    if let Some(id) = request.upstream {
        crate::upstream::adding_counts_one(pool.requests, id, request.key);
    }
}

/// A request is the connection, the documents, the content, the editor's name for it
/// and the lifetime that it insists on.
pub proof fn requests_say_every_part(request: BridgeRequest)
    ensures
        request@.key == request.key@ && request@.handle == request.handle,
        request@.host == request.host_uri@ && request@.uri == request.virtual_uri@,
        request@.content == request.content@ && request@.expected == request.expected_incarnation,
        request@.upstream is Some <==> request.upstream_id is Some,
        request.upstream_id matches Some(id) ==> request@.upstream == Some(id@),
{
}

} // verus!
