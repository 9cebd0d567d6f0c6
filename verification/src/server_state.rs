//! The registry of live connections and the decisions of the server: what to
//! answer to an HTTP request, what to do with a WebSocket frame, and which
//! application a text message goes to. The sockets stay with the caller: every
//! decision comes back as an action for it to carry out.

use vstd::prelude::*;
use vstd::string::{StrSliceExecFns, StringSliceAdditionalSpecFns};
use vstd::utf8::{decode_utf8, encode_utf8, valid_utf8};
use crate::error::ServerError;
use crate::filler::wire::encodes;
use crate::frames::{encode_frame, frame_bytes, lemma_frame_carries_payload, FrameKind};
use crate::filler::game::GameView;
use crate::filler::{answer, handle_request, is_start, new_game_state};
use crate::god_set::GodSetGlobalState;
use crate::handshake::{handle_deelio, upgrade_response};
use crate::http::{HttpRequest, HttpRequestView};
use crate::json::{Json, JsonModel};
use crate::notation::{json_of, json_text, parse_json, print_json, string_from_utf8};
use crate::resources::{check_resource, stays_inside};
use crate::text::str_equal;

verus! {

/// The name of a connection: a number that the server gives out once.
#[derive(Copy, Clone, PartialEq, Eq, Structural, Debug)]
pub struct ClientId(pub u64);

/// The counter that the names of connections come from.
pub struct ClientIdGenerator(u64);

impl ClientIdGenerator {
    /// How many names were given out.
    pub closed spec fn issued(&self) -> u64 {
        self.0
    }

    pub fn new() -> (r: ClientIdGenerator)
        ensures
            r.issued() == 0,
    {
        ClientIdGenerator(0)
    }

    /// Whether every name was given out.
    pub fn is_spent(&self) -> (r: bool)
        ensures
            r == (self.issued() == u64::MAX),
    {
        self.0 == u64::MAX
    }

    /// The next name: one more than the last.
    pub fn next(&mut self) -> (id: ClientId)
        requires
            old(self).issued() < u64::MAX,
        ensures
            final(self).issued() == old(self).issued() + 1,
            id.0 == final(self).issued(),
    {
        self.0 += 1;
        ClientId(self.0)
    }
}

/// Whether a connection goes on or ends.
#[derive(Copy, Clone, PartialEq, Eq, Structural, Debug)]
pub enum StreamState {
    Keep,
    Drop,
}

/// What the server does about a frame.
#[derive(Debug)]
pub enum FrameAction {
    /// The connection goes on; nothing is sent.
    Keep,
    /// The connection ends.
    Drop,
    /// These bytes, a frame, go to the client. The connection goes on if they
    /// could be written, and ends if not.
    Send { frame: Vec<u8> },
}

/// What the server does about an HTTP request.
#[derive(Debug)]
pub enum HttpAction {
    /// The response that switches to WebSocket goes to the client.
    Switch { response: String },
    /// The request is for a file below the root of the resources; the
    /// connection ends after the answer.
    Serve,
    /// The request is refused with this error; the connection ends after the
    /// answer.
    Refuse { error: ServerError },
    /// No such client is registered; the connection ends.
    Drop,
}

/// A live connection.
#[derive(Debug)]
pub struct Client {
    pub id: ClientId,
    /// The request that the client upgraded its connection with.
    pub upgraded: Option<HttpRequest>,
}

/// The mathematical value of a [`Client`].
pub ghost struct ClientView {
    pub id: u64,
    pub upgraded: Option<HttpRequestView>,
}

impl View for Client {
    type V = ClientView;

    open spec fn view(&self) -> ClientView {
        ClientView {
            id: self.id.0,
            upgraded: match self.upgraded {
                Some(request) => Some(request@),
                None => None,
            },
        }
    }
}

/// What the server does about a text message for the application at `path`,
/// given what the message spells as JSON and what the game answered.
pub open spec fn filler_answers(parsed: Option<JsonModel>, reply: Option<JsonModel>) -> bool {
    match parsed {
        None => reply is None,
        Some(JsonModel::Null) => reply matches Some(json) && exists|s|
            is_start(s) && #[trigger] encodes(json, s),
        Some(request) => match answer(request) {
            Some(s) => reply matches Some(json) && encodes(json, s),
            None => reply is None,
        },
    }
}

/// The answer of the game to a message that was read as JSON: a new game to
/// `null`, the game after two moves to a request, none to what is no request or
/// asks for an illegal move, and none to what was no JSON.
pub fn filler_reply(parsed: Option<Json>) -> (reply: Option<Json>)
    ensures
        filler_answers(
            match parsed {
                Some(json) => Some(json@),
                None => None,
            },
            match reply {
                Some(json) => Some(json@),
                None => None,
            },
        ),
{
    match parsed {
        None => None,
        Some(json) => {
            if json.get_null().is_some() {
                Some(new_game_state())
            } else {
                handle_request(&json)
            }
        },
    }
}

/// Whether `action` sends the frame of this kind and payload; where there is
/// no such frame, whether it ends the connection.
pub open spec fn sends(action: FrameAction, kind: FrameKind, payload: Seq<u8>) -> bool {
    match frame_bytes(kind, payload) {
        Some(bytes) => action matches FrameAction::Send { frame } && frame@ == bytes,
        None => action is Drop,
    }
}

/// What `sends` comes to: a frame that is no control frame is always sent, a
/// control frame unless its payload has more than 125 bytes; and what is sent
/// starts with the kind and ends in the payload.
pub proof fn lemma_sends(action: FrameAction, kind: FrameKind, payload: Seq<u8>)
    requires
        sends(action, kind, payload),
    ensures
        action is Drop <==> kind.is_control() && payload.len() > 125,
        action is Send || action is Drop,
        action matches FrameAction::Send { frame } ==> {
            &&& frame@ == frame_bytes(kind, payload)->0
            &&& frame@[0] == 128 + kind.opcode()
            &&& frame@.subrange(frame@.len() - payload.len(), frame@.len() as int) == payload
        },
{
    if frame_bytes(kind, payload) is Some {
        lemma_frame_carries_payload(kind, payload);
    }
}

/// Sends the frame of this kind and payload.
pub fn send_frame(kind: FrameKind, payload: Vec<u8>) -> (action: FrameAction)
    ensures
        sends(action, kind, payload@),
{
    match encode_frame(kind, payload) {
        Some(frame) => FrameAction::Send { frame },
        None => FrameAction::Drop,
    }
}

/// What the router may do about a text message `message` for the application
/// at `path`: the list of terms goes to whoever writes to `/godset`, the
/// answer of the game to whoever writes to `/filler`, and the connection ends
/// where there is no answer or no such application. There is no answer to a
/// message that is no UTF-8, that is no JSON, or that is longer than the
/// longest text that is read as JSON.
pub open spec fn routed(path: Seq<char>, message: Seq<u8>, terms: Seq<char>, action: FrameAction) -> bool {
    if path == "/godset"@ {
        sends(action, FrameKind::Text, encode_utf8(terms))
    } else if path == "/filler"@ {
        if !valid_utf8(message) {
            action is Drop
        } else {
            exists|reply: Option<JsonModel>| #[trigger]
                filler_answers(json_of(decode_utf8(message)), reply) && match reply {
                    Some(json) => sends(action, FrameKind::Text, encode_utf8(json_text(json))),
                    None => action is Drop,
                }
        }
    } else {
        action is Drop
    }
}

/// Whether `action` sends a new game: a text frame with the JSON text of a
/// start of the game.
pub open spec fn starts_game(action: FrameAction) -> bool {
    exists|json: JsonModel, s: GameView|
        is_start(s) && #[trigger] encodes(json, s) && sends_text(action, json_text(json))
}

/// Whether `action` sends the text frame that carries `text`.
pub open spec fn sends_text(action: FrameAction, text: Seq<char>) -> bool {
    action matches FrameAction::Send { frame } && frame_bytes(
        FrameKind::Text,
        encode_utf8(text),
    ) == Some(frame@)
}

/// The paths of the two applications differ.
pub proof fn lemma_paths_differ()
    ensures
        "/godset"@ != "/filler"@,
{
    reveal_strlit("/godset");
    reveal_strlit("/filler");
    assert("/godset"@[1] != "/filler"@[1]);
}

/// Routes a text message to the application at `path`. The message `null`
/// to `/filler` is always answered by a new game.
pub fn route_text(path: &str, message_bytes: Vec<u8>, god_set: &GodSetGlobalState) -> (action:
    FrameAction)
    ensures
        routed(path@, message_bytes@, god_set.text(), action),
        path@ == "/filler"@ && message_bytes@ == encode_utf8("null"@) ==> starts_game(action),
{
    proof {
        lemma_paths_differ();
        vstd::utf8::encode_utf8_valid_utf8("null"@);
        vstd::utf8::encode_utf8_decode_utf8("null"@);
    }
    if str_equal(path, "/godset") {
        send_frame(FrameKind::Text, god_set.raw_bytes())
    } else if str_equal(path, "/filler") {
        let text = match string_from_utf8(message_bytes) {
            Some(text) => text,
            None => {
                return FrameAction::Drop;
            },
        };
        let reply = filler_reply(parse_json(text.as_str()));
        let ghost parsed = json_of(decode_utf8(message_bytes@));
        match reply {
            Some(json) => {
                let payload = print_json(&json).as_str().as_bytes_vec();
                let action = send_frame(FrameKind::Text, payload);
                assert(filler_answers(parsed, Some(json@)));
                proof {
                    if message_bytes@ == encode_utf8("null"@) {
                        let s = choose|s: GameView| is_start(s) && #[trigger] encodes(json@, s);
                        assert(is_start(s) && encodes(json@, s));
                        assert(sends_text(action, json_text(json@)));
                    }
                }
                action
            },
            None => {
                assert(filler_answers(parsed, None));
                FrameAction::Drop
            },
        }
    } else {
        FrameAction::Drop
    }
}

/// The server: its clients, the counter of their names, and the list of
/// terms.
pub struct ServerState {
    clients: Vec<Client>,
    id_generator: ClientIdGenerator,
    god_set: GodSetGlobalState,
}

/// The place of the client `id` in `clients`, if it is there.
pub open spec fn place_of(clients: Seq<ClientView>, id: u64) -> Option<int> {
    if exists|i: int| 0 <= i < clients.len() && clients[i].id == id {
        Some(choose|i: int| 0 <= i < clients.len() && clients[i].id == id)
    } else {
        None
    }
}

/// Whether no two of `clients` have one name, and every name is one that was
/// given out.
pub open spec fn registry_ok(clients: Seq<ClientView>, issued: u64) -> bool {
    &&& forall|i: int, j: int|
        0 <= i < j < clients.len() ==> (#[trigger] clients[i]).id != (#[trigger] clients[j]).id
    &&& forall|i: int| 0 <= i < clients.len() ==> 1 <= (#[trigger] clients[i]).id <= issued
}

/// The clients after the switching response to the client `id` was handled:
/// if it was written, and the client is there and has no request yet, it keeps
/// `message`; nothing else changes.
pub open spec fn after_upgrade(
    clients: Seq<ClientView>,
    id: ClientId,
    message: HttpRequestView,
    written: bool,
) -> Seq<ClientView> {
    match place_of(clients, id.0) {
        Some(i) => if written && clients[i].upgraded is None {
            clients.update(i, ClientView { id: id.0, upgraded: Some(message) })
        } else {
            clients
        },
        None => clients,
    }
}

impl ServerState {
    /// What holds of a server at all times: its clients have different names,
    /// all of them given out by its counter.
    pub open spec fn wf(&self) -> bool {
        registry_ok(self.clients(), self.issued())
    }

    /// The clients, oldest first.
    pub closed spec fn clients(&self) -> Seq<ClientView> {
        Seq::new(self.clients.len() as nat, |i: int| self.clients[i]@)
    }

    /// How many names were given out.
    pub closed spec fn issued(&self) -> u64 {
        self.id_generator.issued()
    }

    /// The JSON text of the list of terms.
    pub closed spec fn terms(&self) -> Seq<char> {
        self.god_set.text()
    }

    /// The client `id`, if it is registered.
    pub open spec fn client(&self, id: ClientId) -> Option<ClientView> {
        match place_of(self.clients(), id.0) {
            Some(i) => Some(self.clients()[i]),
            None => None,
        }
    }

    /// A server without clients.
    pub fn new(god_set: GodSetGlobalState) -> (state: ServerState)
        ensures
            state.wf(),
            state.clients() == Seq::<ClientView>::empty(),
            state.issued() == 0,
            state.terms() == god_set.text(),
    {
        let state = ServerState {
            clients: Vec::new(),
            id_generator: ClientIdGenerator::new(),
            god_set,
        };
        assert(state.clients() =~= Seq::<ClientView>::empty());
        state
    }

    /// Whether the server can take another connection: it can until it has
    /// given out every name.
    pub fn has_room(&self) -> (r: bool)
        ensures
            r == (self.issued() < u64::MAX),
    {
        !self.id_generator.is_spent()
    }

    /// Registers a new connection under a name that no connection had before.
    pub fn new_connection_handler(&mut self) -> (id: ClientId)
        requires
            old(self).wf(),
            old(self).issued() < u64::MAX,
        ensures
            final(self).wf(),
            id.0 == old(self).issued() + 1,
            final(self).issued() == id.0,
            old(self).client(id) is None,
            final(self).clients() == old(self).clients().push(
                ClientView { id: id.0, upgraded: None },
            ),
            final(self).terms() == old(self).terms(),
    {
        let id = self.id_generator.next();
        let ghost before = self.clients();
        self.clients.push(Client { id, upgraded: None });
        assert(self.clients() =~= before.push(ClientView { id: id.0, upgraded: None }));
        id
    }

    /// Where the client `id` stands among the clients.
    fn find(&self, id: ClientId) -> (r: Option<usize>)
        requires
            self.wf(),
        ensures
            match place_of(self.clients(), id.0) {
                Some(i) => r == Some(i as usize) && 0 <= i < self.clients().len(),
                None => r is None,
            },
            r matches Some(i) ==> i < self.clients.len() && self.clients[i as int]@
                == self.clients()[i as int],
    {
        let mut i: usize = 0;
        while i < self.clients.len()
            invariant
                i <= self.clients.len(),
                self.wf(),
                self.clients().len() == self.clients.len(),
                forall|k: int| 0 <= k < i ==> self.clients()[k].id != id.0,
            decreases self.clients.len() - i,
        {
            if self.clients[i].id.0 == id.0 {
                assert(self.clients()[i as int].id == id.0);
                let ghost chosen = place_of(self.clients(), id.0)->0;
                assert(self.clients()[chosen].id == self.clients()[i as int].id);
                return Some(i);
            }
            i += 1;
        }
        None
    }

    /// The client `id`, if it is registered.
    pub fn get_client(&self, id: ClientId) -> (r: Option<&Client>)
        requires
            self.wf(),
        ensures
            match self.client(id) {
                Some(client) => r matches Some(found) && found@ == client,
                None => r is None,
            },
    {
        match self.find(id) {
            Some(i) => Some(&self.clients[i]),
            None => None,
        }
    }

    /// Takes the client `id` off the registry, if it is there.
    pub fn drop_handler(&mut self, id: ClientId)
        requires
            old(self).wf(),
        ensures
            final(self).wf(),
            final(self).issued() == old(self).issued(),
            final(self).terms() == old(self).terms(),
            final(self).client(id) is None,
            final(self).clients() == match place_of(old(self).clients(), id.0) {
                Some(i) => old(self).clients().remove(i),
                None => old(self).clients(),
            },
    {
        let ghost before = self.clients();
        match self.find(id) {
            Some(i) => {
                self.clients.remove(i);
                assert(self.clients() =~= before.remove(i as int));
                assert forall|k: int| 0 <= k < self.clients().len() implies self.clients()[k].id
                    != id.0 by {
                    if k < i {
                        assert(self.clients()[k] == before[k]);
                    } else {
                        assert(self.clients()[k] == before[k + 1]);
                    }
                }
            },
            None => {},
        }
    }

    /// What to do about the HTTP request `message` of the client `id`: switch
    /// to WebSocket if it asks for that, else serve the file it names, unless
    /// the path leaves the root of the resources.
    pub fn http_message_handler(&self, id: ClientId, message: &HttpRequest) -> (action: HttpAction)
        requires
            self.wf(),
        ensures
            match self.client(id) {
                None => action is Drop,
                Some(_) => match upgrade_response(message@) {
                    Some(text) => action matches HttpAction::Switch { response } && response@
                        == text,
                    None => if stays_inside(message@.resource) {
                        action is Serve
                    } else {
                        action matches HttpAction::Refuse { error }
                            && error is PathOutsideResources
                    },
                },
            },
    {
        match self.find(id) {
            None => HttpAction::Drop,
            Some(_) => match handle_deelio(message) {
                Some(response) => HttpAction::Switch { response },
                None => match check_resource(message.resource_location()) {
                    Ok(()) => HttpAction::Serve,
                    Err(error) => HttpAction::Refuse { error },
                },
            },
        }
    }

    /// Takes note of how the switching response to the client `id` went. If it
    /// was written, the client keeps `message` as the request it upgraded
    /// with, unless it has one already, and the connection goes on; if not,
    /// the connection ends.
    pub fn upgrade(&mut self, id: ClientId, message: HttpRequest, written: bool) -> (r: StreamState)
        requires
            old(self).wf(),
        ensures
            final(self).wf(),
            final(self).issued() == old(self).issued(),
            final(self).terms() == old(self).terms(),
            r == if written && old(self).client(id) is Some {
                StreamState::Keep
            } else {
                StreamState::Drop
            },
            final(self).clients() == after_upgrade(old(self).clients(), id, message@, written),
    {
        if !written {
            return StreamState::Drop;
        }
        let ghost before = self.clients();
        match self.find(id) {
            None => StreamState::Drop,
            Some(i) => {
                if self.clients[i].upgraded.is_none() {
                    self.clients.set(i, Client { id, upgraded: Some(message) });
                    assert(self.clients() =~= before.update(
                        i as int,
                        ClientView { id: id.0, upgraded: Some(message@) },
                    ));
                }
                StreamState::Keep
            },
        }
    }

    /// What becomes of the connection of the client `id` once `action`, the
    /// answer to its HTTP request `message`, was carried out; `written` says
    /// whether the answer could be written. After the switching response the
    /// connection goes on as `upgrade` says. After anything else it ends,
    /// whether the answer was written or not, and the registry stays as it
    /// is.
    pub fn http_verdict(
        &mut self,
        id: ClientId,
        message: HttpRequest,
        action: &HttpAction,
        written: bool,
    ) -> (r: StreamState)
        requires
            old(self).wf(),
        ensures
            final(self).wf(),
            final(self).issued() == old(self).issued(),
            final(self).terms() == old(self).terms(),
            action is Switch ==> r == (if written && old(self).client(id) is Some {
                StreamState::Keep
            } else {
                StreamState::Drop
            }) && final(self).clients() == after_upgrade(
                old(self).clients(),
                id,
                message@,
                written,
            ),
            action !is Switch ==> r == StreamState::Drop && final(self).clients() == old(
                self,
            ).clients(),
    {
        match action {
            HttpAction::Switch { .. } => self.upgrade(id, message, written),
            _ => StreamState::Drop,
        }
    }

    /// What to do about a text message of the client `id`: it goes to the
    /// application at the path that the client upgraded with. The connection
    /// of a client that is unknown, or has not upgraded, ends.
    pub fn text_websocket_message_handler(&self, id: ClientId, message_bytes: Vec<u8>) -> (action:
        FrameAction)
        requires
            self.wf(),
        ensures
            match self.client(id) {
                Some(ClientView { upgraded: Some(request), .. }) => routed(
                    request.resource,
                    message_bytes@,
                    self.terms(),
                    action,
                ) && (request.resource == "/filler"@ && message_bytes@ == encode_utf8("null"@)
                    ==> starts_game(action)),
                _ => action is Drop,
            },
    {
        match self.get_client(id) {
            Some(client) => match &client.upgraded {
                Some(request) => route_text(request.resource_location(), message_bytes, &self.god_set),
                None => FrameAction::Drop,
            },
            None => FrameAction::Drop,
        }
    }

    /// What to do about a frame of the client `id`. A text goes to its
    /// application. A ping is answered by a pong with the same payload. A pong
    /// changes nothing. A close, a binary frame and a continuation end the
    /// connection, and so does a frame of a client that is not registered.
    pub fn websocket_message_handler(
        &self,
        id: ClientId,
        message_bytes: Vec<u8>,
        kind: FrameKind,
    ) -> (action: FrameAction)
        requires
            self.wf(),
        ensures
            match kind {
                FrameKind::Text => match self.client(id) {
                    Some(ClientView { upgraded: Some(request), .. }) => routed(
                        request.resource,
                        message_bytes@,
                        self.terms(),
                        action,
                    ) && (request.resource == "/filler"@ && message_bytes@ == encode_utf8(
                        "null"@,
                    ) ==> starts_game(action)),
                    _ => action is Drop,
                },
                FrameKind::Ping => match self.client(id) {
                    Some(_) => sends(action, FrameKind::Pong, message_bytes@),
                    None => action is Drop,
                },
                FrameKind::Pong => action is Keep,
                FrameKind::Binary | FrameKind::Continue | FrameKind::Close => action is Drop,
            },
    {
        match kind {
            FrameKind::Text => self.text_websocket_message_handler(id, message_bytes),
            FrameKind::Binary => FrameAction::Drop,
            FrameKind::Ping => match self.find(id) {
                Some(_) => send_frame(FrameKind::Pong, message_bytes),
                None => FrameAction::Drop,
            },
            FrameKind::Continue => FrameAction::Drop,
            FrameKind::Pong => FrameAction::Keep,
            FrameKind::Close => FrameAction::Drop,
        }
    }
}

/// Whether the connection goes on after a frame was sent: it does if the
/// frame could be written.
pub fn write_verdict(written: bool) -> (r: StreamState)
    ensures
        r == if written {
            StreamState::Keep
        } else {
            StreamState::Drop
        },
{
    if written {
        StreamState::Keep
    } else {
        StreamState::Drop
    }
}

/// Whether the connection goes on after a frame could not be decoded: it does
/// if the error is one to try again after.
pub fn decode_error_verdict(should_retry: bool) -> (r: StreamState)
    ensures
        r == if should_retry {
            StreamState::Keep
        } else {
            StreamState::Drop
        },
{
    if should_retry {
        StreamState::Keep
    } else {
        StreamState::Drop
    }
}

} // verus!
