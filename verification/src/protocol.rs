use vstd::prelude::*;

use crate::audit::surface_word;
use crate::config::{CheckKind, MCP_VERSION};
use crate::error::Error;
use crate::json::{
    entries_view, lemma_four_keys_differ, lemma_members_found, lemma_object_view, lemma_three_keys_differ,
    lemma_two_keys_differ, Json, JsonV, Number,
};
use crate::normalize::{
    lemma_empty_list_normal, lemma_normal_is_array, lemma_result_is_normal, named_items_result,
    normal_list,
    normalize_named_items,
};

verus! {

/// What discovery learned of a server: the negotiated protocol version, the
/// advertised capabilities and the three normalized discovery lists.
pub struct ServerContract {
    pub protocol_version: Option<String>,
    pub capabilities: Json,
    pub tools: Json,
    pub resources: Json,
    pub prompts: Json,
}

impl ServerContract {
    /// The three discovery lists are arrays (discovery only ever stores
    /// normalized lists, which are).
    pub open spec fn lists_are_arrays(&self) -> bool {
        &&& self.tools@ is Array
        &&& self.resources@ is Array
        &&& self.prompts@ is Array
    }
}

impl CheckKind {
    /// The list method of the surface.
    pub open spec fn method(self) -> Seq<char> {
        match self {
            CheckKind::Tools => "tools/list"@,
            CheckKind::Resources => "resources/list"@,
            CheckKind::Prompts => "prompts/list"@,
        }
    }

    /// The member of `result` that holds the list.
    pub open spec fn result_key(self) -> Seq<char> {
        match self {
            CheckKind::Tools => "tools"@,
            CheckKind::Resources => "resources"@,
            CheckKind::Prompts => "prompts"@,
        }
    }

    pub fn method_name(&self) -> (r: &'static str)
        ensures
            r@ == self.method(),
    {
        match self {
            CheckKind::Tools => "tools/list",
            CheckKind::Resources => "resources/list",
            CheckKind::Prompts => "prompts/list",
        }
    }

    pub fn key_name(&self) -> (r: &'static str)
        ensures
            r@ == self.result_key(),
    {
        match self {
            CheckKind::Tools => "tools",
            CheckKind::Resources => "resources",
            CheckKind::Prompts => "prompts",
        }
    }
}

/// A JSON string of the text.
pub open spec fn jstr(s: Seq<char>) -> JsonV {
    JsonV::Str(s)
}

/// The request id of a message.
pub open spec fn jid(id: u64) -> JsonV {
    JsonV::Number(Number::PosInt(id))
}

/// The `initialize` request (id 1) that opens a session.
pub open spec fn initialize_request(client_version: Seq<char>) -> JsonV {
    JsonV::Object(
        seq![
            ("id"@, jid(1)),
            ("jsonrpc"@, jstr("2.0"@)),
            ("method"@, jstr("initialize"@)),
            (
                "params"@,
                JsonV::Object(
                    seq![
                        ("capabilities"@, JsonV::Object(Seq::empty())),
                        (
                            "clientInfo"@,
                            JsonV::Object(
                                seq![("name"@, jstr("astray-verify"@)), ("version"@, jstr(client_version))],
                            ),
                        ),
                        ("protocolVersion"@, jstr(MCP_VERSION@)),
                    ],
                ),
            ),
        ],
    )
}

/// The notification that the client has taken the handshake.
pub open spec fn initialized_notification() -> JsonV {
    JsonV::Object(
        seq![("jsonrpc"@, jstr("2.0"@)), ("method"@, jstr("notifications/initialized"@))],
    )
}

/// The request for a discovery list.
pub open spec fn list_request(id: u64, surface: CheckKind) -> JsonV {
    JsonV::Object(
        seq![
            ("id"@, jid(id)),
            ("jsonrpc"@, jstr("2.0"@)),
            ("method"@, jstr(surface.method())),
            ("params"@, JsonV::Object(Seq::empty())),
        ],
    )
}

fn text(s: &str) -> (r: String)
    ensures
        r@ == s@,
{
    String::from_str(s)
}

fn member(key: &str, value: Json) -> (r: (String, Json))
    ensures
        r.0@ == key@,
        r.1@ == value@,
{
    (text(key), value)
}

fn object2(a: (String, Json), b: (String, Json)) -> (r: Json)
    ensures
        r@ == JsonV::Object(seq![(a.0@, a.1@), (b.0@, b.1@)]),
{
    let mut v = Vec::new();
    v.push(a);
    v.push(b);
    proof {
        lemma_object_view(v);
        assert(entries_view(v@) =~= seq![(a.0@, a.1@), (b.0@, b.1@)]);
    }
    Json::Object(v)
}

fn object3(a: (String, Json), b: (String, Json), c: (String, Json)) -> (r: Json)
    ensures
        r@ == JsonV::Object(seq![(a.0@, a.1@), (b.0@, b.1@), (c.0@, c.1@)]),
{
    let mut v = Vec::new();
    v.push(a);
    v.push(b);
    v.push(c);
    proof {
        lemma_object_view(v);
        assert(entries_view(v@) =~= seq![(a.0@, a.1@), (b.0@, b.1@), (c.0@, c.1@)]);
    }
    Json::Object(v)
}

fn object4(a: (String, Json), b: (String, Json), c: (String, Json), d: (String, Json)) -> (r: Json)
    ensures
        r@ == JsonV::Object(seq![(a.0@, a.1@), (b.0@, b.1@), (c.0@, c.1@), (d.0@, d.1@)]),
{
    let mut v = Vec::new();
    v.push(a);
    v.push(b);
    v.push(c);
    v.push(d);
    proof {
        lemma_object_view(v);
        assert(entries_view(v@) =~= seq![(a.0@, a.1@), (b.0@, b.1@), (c.0@, c.1@), (d.0@, d.1@)]);
    }
    Json::Object(v)
}

fn empty_object() -> (r: Json)
    ensures
        r@ == JsonV::Object(Seq::empty()),
{
    let v: Vec<(String, Json)> = Vec::new();
    proof {
        lemma_object_view(v);
        assert(entries_view(v@) =~= Seq::<(Seq<char>, JsonV)>::empty());
    }
    Json::Object(v)
}

/// Builds the `initialize` request.
pub fn make_initialize_request(client_version: &str) -> (r: Json)
    ensures
        r@ == initialize_request(client_version@),
{
    let client = object2(
        member("name", Json::Str(text("astray-verify"))),
        member("version", Json::Str(text(client_version))),
    );
    let params = object3(
        member("capabilities", empty_object()),
        member("clientInfo", client),
        member("protocolVersion", Json::Str(text(MCP_VERSION))),
    );
    object4(
        member("id", Json::Number(Number::PosInt(1))),
        member("jsonrpc", Json::Str(text("2.0"))),
        member("method", Json::Str(text("initialize"))),
        member("params", params),
    )
}

/// Builds the `notifications/initialized` notification.
pub fn make_initialized_notification() -> (r: Json)
    ensures
        r@ == initialized_notification(),
{
    object2(
        member("jsonrpc", Json::Str(text("2.0"))),
        member("method", Json::Str(text("notifications/initialized"))),
    )
}

/// Builds the request for a discovery list.
pub fn make_list_request(id: u64, surface: CheckKind) -> (r: Json)
    ensures
        r@ == list_request(id, surface),
{
    object4(
        member("id", Json::Number(Number::PosInt(id))),
        member("jsonrpc", Json::Str(text("2.0"))),
        member("method", Json::Str(text(surface.method_name()))),
        member("params", empty_object()),
    )
}

/// How a message read while waiting for the response to request
/// `expected_id` is taken: `None` if it is some other message (waiting goes
/// on), the message itself if it is the response, or the server's error if
/// the response carries one.
pub open spec fn response_outcome(expected_id: u64, message: JsonV) -> Option<Result<JsonV, JsonV>> {
    if message.field("id"@) == Some(jid(expected_id)) {
        match message.field("error"@) {
            Some(error) => Some(Err(error)),
            None => Some(Ok(message)),
        }
    } else {
        None
    }
}

/// Takes one message read while waiting for the response to `expected_id`
/// (the body of `McpProcess::response`'s loop).
pub fn match_response(expected_id: u64, message: Json) -> (r: Option<Result<Json, Error>>)
    ensures
        match response_outcome(expected_id, message@) {
            None => r is None,
            Some(Ok(m)) => r matches Some(Ok(v)) && v@ == m,
            Some(Err(e)) => r matches Some(Err(Error::ServerError { error })) && error@ == e,
        },
{
    let id_matches = match message.get("id") {
        Some(id) => id.equals(&Json::Number(Number::PosInt(expected_id))),
        None => false,
    };
    if !id_matches {
        return None;
    }
    match message.get("error") {
        Some(error) => Some(Err(Error::ServerError { error: error.duplicate() })),
        None => Some(Ok(message)),
    }
}

/// The `result` member of a response.
pub open spec fn result_of(response: JsonV) -> Option<JsonV> {
    response.field("result"@)
}

/// The capabilities that an `initialize` response advertises (`{}` if none).
pub open spec fn capabilities_of(init: JsonV) -> JsonV {
    match result_of(init) {
        Some(result) => match result.field("capabilities"@) {
            Some(caps) => caps,
            None => JsonV::Object(Seq::empty()),
        },
        None => JsonV::Object(Seq::empty()),
    }
}

/// The protocol version that an `initialize` response names, if any.
pub open spec fn protocol_version_of(init: JsonV) -> Option<Seq<char>> {
    match result_of(init) {
        Some(result) => result.string_field("protocolVersion"@),
        None => None,
    }
}

/// Whether discovery asks for a surface: tools always; resources and
/// prompts only when the server advertises the capability of that name.
pub open spec fn requested(capabilities: JsonV, surface: CheckKind) -> bool {
    match surface {
        CheckKind::Tools => true,
        _ => capabilities.field(surface.result_key()) is Some,
    }
}

/// The list in a list response, if it has one.
pub open spec fn list_of(response: JsonV, surface: CheckKind) -> Option<JsonV> {
    match result_of(response) {
        Some(result) => result.field(surface.result_key()),
        None => None,
    }
}

/// The surface discovered after this one.
pub open spec fn following(surface: CheckKind) -> Option<CheckKind> {
    match surface {
        CheckKind::Tools => Some(CheckKind::Resources),
        CheckKind::Resources => Some(CheckKind::Prompts),
        CheckKind::Prompts => None,
    }
}

/// The empty array, the list of a surface that is not asked for.
pub open spec fn empty_list() -> JsonV {
    JsonV::Array(Seq::empty())
}

/// Where discovery stands: waiting for the `initialize` response, or for
/// the list of one surface.
#[derive(Clone, Copy, PartialEq, Eq, Structural, Debug)]
pub enum Stage {
    Initializing,
    Listing(CheckKind),
}

/// The state of discovery between two responses (`discover_contract`).
pub struct Discovery {
    stage: Stage,
    /// The id of the request whose response is awaited.
    awaiting: u64,
    /// The id the next request will carry.
    next_id: u64,
    protocol_version: Option<String>,
    capabilities: Json,
    tools: Json,
    resources: Json,
    prompts: Json,
}

/// What to do after a response: send messages and wait for the response
/// to a request, or stop with the contract.
pub enum Progress {
    Continue { state: Discovery, send: Vec<Json> },
    Finished(ServerContract),
}

pub open spec fn messages_view(v: Seq<Json>) -> Seq<JsonV> {
    v.map_values(|j: Json| j@)
}

impl Discovery {
    /// The state is always consistent: see `DiscoveryV::wf`.
    #[verifier::type_invariant]
    closed spec fn consistent(self) -> bool {
        self@.wf()
    }

    /// The id of the request whose response is awaited.
    pub fn awaiting(&self) -> (r: u64)
        ensures
            r == self@.awaiting,
    {
        self.awaiting
    }

    /// Starts discovery: send `initialize` (id 1) and wait for its response.
    pub fn start(client_version: &str) -> (r: (Discovery, Vec<Json>))
        ensures
            r.0@.stage == Stage::Initializing,
            r.0@.awaiting == 1,
            messages_view(r.1@) == seq![initialize_request(client_version@)],
            r.1.len() == 1,
            is_request(messages_view(r.1@)[0], 1, "initialize"@),
            names_client(messages_view(r.1@)[0], client_version@),
    {
        proof {
            lemma_initialize_request_is_jsonrpc(client_version@);
        }
        let mut send = Vec::new();
        send.push(make_initialize_request(client_version));
        proof {
            assert(messages_view(send@) =~= seq![initialize_request(client_version@)]);
        }
        (
            Discovery {
                stage: Stage::Initializing,
                awaiting: 1,
                next_id: 2,
                protocol_version: None,
                capabilities: Json::Null,
                tools: Json::Null,
                resources: Json::Null,
                prompts: Json::Null,
            },
            send,
        )
    }
}

/// The model of a discovery state.
pub struct DiscoveryV {
    pub stage: Stage,
    pub awaiting: u64,
    pub next_id: u64,
    pub protocol_version: Option<Seq<char>>,
    pub capabilities: JsonV,
    pub tools: JsonV,
    pub resources: JsonV,
    pub prompts: JsonV,
}

/// The model of a discovered contract.
pub struct ContractV {
    pub protocol_version: Option<Seq<char>>,
    pub capabilities: JsonV,
    pub tools: JsonV,
    pub resources: JsonV,
    pub prompts: JsonV,
}

/// The model of the progress of discovery.
pub enum ProgressV {
    Continue { state: DiscoveryV, send: Seq<JsonV> },
    Finished(ContractV),
}

pub open spec fn opt_string_view(o: Option<String>) -> Option<Seq<char>> {
    match o {
        Some(s) => Some(s@),
        None => None,
    }
}

impl View for Discovery {
    type V = DiscoveryV;

    closed spec fn view(&self) -> DiscoveryV {
        DiscoveryV {
            stage: self.stage,
            awaiting: self.awaiting,
            next_id: self.next_id,
            protocol_version: opt_string_view(self.protocol_version),
            capabilities: self.capabilities@,
            tools: self.tools@,
            resources: self.resources@,
            prompts: self.prompts@,
        }
    }
}

impl View for ServerContract {
    type V = ContractV;

    open spec fn view(&self) -> ContractV {
        ContractV {
            protocol_version: opt_string_view(self.protocol_version),
            capabilities: self.capabilities@,
            tools: self.tools@,
            resources: self.resources@,
            prompts: self.prompts@,
        }
    }
}

impl View for Progress {
    type V = ProgressV;

    open spec fn view(&self) -> ProgressV {
        match self {
            Progress::Continue { state, send } => ProgressV::Continue {
                state: state@,
                send: messages_view(send@),
            },
            Progress::Finished(c) => ProgressV::Finished(c@),
        }
    }
}

impl ContractV {
    /// The three lists are as `normalize_named_items` leaves them.
    pub open spec fn lists_are_normal(self) -> bool {
        &&& normal_list(self.tools)
        &&& normal_list(self.resources)
        &&& normal_list(self.prompts)
    }
}

impl DiscoveryV {
    /// The state is consistent: the id after the awaited one comes next,
    /// at most four requests are ever made, and the lists of the surfaces
    /// already discovered are normal.
    pub open spec fn wf(self) -> bool {
        &&& self.next_id == self.awaiting + 1
        &&& 1 <= self.awaiting <= 4
        &&& match self.stage {
            Stage::Initializing => self.awaiting == 1,
            Stage::Listing(CheckKind::Tools) => self.awaiting == 2,
            Stage::Listing(CheckKind::Resources) => normal_list(self.tools) && self.awaiting <= 3,
            Stage::Listing(CheckKind::Prompts) => normal_list(self.tools) && normal_list(
                self.resources,
            ),
        }
    }

    /// The state with the list of a surface set.
    pub open spec fn with_list(self, surface: CheckKind, list: JsonV) -> DiscoveryV {
        match surface {
            CheckKind::Tools => DiscoveryV { tools: list, ..self },
            CheckKind::Resources => DiscoveryV { resources: list, ..self },
            CheckKind::Prompts => DiscoveryV { prompts: list, ..self },
        }
    }

    /// The contract made of the state.
    pub open spec fn contract(self) -> ContractV {
        ContractV {
            protocol_version: self.protocol_version,
            capabilities: self.capabilities,
            tools: self.tools,
            resources: self.resources,
            prompts: self.prompts,
        }
    }
}

pub open spec fn remaining_surfaces(from: Option<CheckKind>) -> nat {
    match from {
        None => 0,
        Some(CheckKind::Prompts) => 1,
        Some(CheckKind::Resources) => 2,
        Some(CheckKind::Tools) => 3,
    }
}

/// From surface `from` on, ask for the first surface that is requested,
/// giving each skipped one the empty list; with none left, finish.
pub open spec fn proceed(d: DiscoveryV, from: Option<CheckKind>) -> ProgressV
    decreases remaining_surfaces(from),
{
    match from {
        None => ProgressV::Finished(d.contract()),
        Some(t) => if requested(d.capabilities, t) {
            ProgressV::Continue {
                state: DiscoveryV {
                    stage: Stage::Listing(t),
                    awaiting: d.next_id,
                    next_id: (d.next_id + 1) as u64,
                    ..d
                },
                send: seq![list_request(d.next_id, t)],
            }
        } else {
            proceed(d.with_list(t, empty_list()), following(t))
        },
    }
}

/// One step of discovery: what follows from the awaited response.
/// After `initialize`: note the capabilities and version, send the
/// `initialized` notification and ask for the tools. After a list: store it
/// normalized (or fail as `normalize_named_items` does, or because the
/// response holds no list) and go on with the next requested surface.
pub open spec fn discovery_step(d: DiscoveryV, response: JsonV) -> Result<ProgressV, Error> {
    match d.stage {
        Stage::Initializing => Ok(
            ProgressV::Continue {
                state: DiscoveryV {
                    stage: Stage::Listing(CheckKind::Tools),
                    awaiting: d.next_id,
                    next_id: (d.next_id + 1) as u64,
                    protocol_version: protocol_version_of(response),
                    capabilities: capabilities_of(response),
                    ..d
                },
                send: seq![initialized_notification(), list_request(d.next_id, CheckKind::Tools)],
            },
        ),
        Stage::Listing(surface) => match list_of(response, surface) {
            None => Err(Error::MissingListResult { surface }),
            Some(raw) => match named_items_result(raw) {
                Err(e) => Err(e),
                Ok(list) => Ok(proceed(d.with_list(surface, list), following(surface))),
            },
        },
    }
}

pub open spec fn progress_matches(r: Result<Progress, Error>, expected: Result<ProgressV, Error>) -> bool {
    match r {
        Ok(p) => expected == Ok::<ProgressV, Error>(p@),
        Err(e) => expected == Err::<ProgressV, Error>(e),
    }
}

fn empty_array() -> (r: Json)
    ensures
        r@ == empty_list(),
{
    let v: Vec<Json> = Vec::new();
    proof {
        crate::json::lemma_array_view(v);
        assert(crate::json::values_view(v@) =~= Seq::<JsonV>::empty());
    }
    Json::Array(v)
}

/// Whether the server advertises the capability for a surface.
fn is_requested(capabilities: &Json, surface: CheckKind) -> (r: bool)
    ensures
        r == requested(capabilities@, surface),
{
    match surface {
        CheckKind::Tools => true,
        _ => capabilities.get(surface.key_name()).is_some(),
    }
}

impl Discovery {
    fn set_list(&mut self, surface: CheckKind, list: Json)
        requires
            normal_list(list@),
        ensures
            final(self)@ == old(self)@.with_list(surface, list@),
    {
        proof {
            use_type_invariant(&*self);
        }
        match surface {
            CheckKind::Tools => self.tools = list,
            CheckKind::Resources => self.resources = list,
            CheckKind::Prompts => self.prompts = list,
        }
    }

    fn into_contract(self) -> (r: ServerContract)
        ensures
            r@ == self@.contract(),
    {
        ServerContract {
            protocol_version: self.protocol_version,
            capabilities: self.capabilities,
            tools: self.tools,
            resources: self.resources,
            prompts: self.prompts,
        }
    }

    /// Goes on from surface `from`: see `proceed`.
    fn proceed_from(self, from: Option<CheckKind>) -> (r: Progress)
        requires
            ready_for(self@, from),
        ensures
            r@ == proceed(self@, from),
        decreases remaining_surfaces(from),
    {
        proof {
            lemma_proceed_wf(self@, from);
            lemma_empty_list_normal();
        }
        match from {
            None => Progress::Finished(self.into_contract()),
            Some(t) => {
                if is_requested(&self.capabilities, t) {
                    let id = self.next_id;
                    let mut send = Vec::new();
                    send.push(make_list_request(id, t));
                    let state = Discovery {
                        stage: Stage::Listing(t),
                        awaiting: id,
                        next_id: id + 1,
                        ..self
                    };
                    proof {
                        assert(messages_view(send@) =~= seq![list_request(id, t)]);
                    }
                    Progress::Continue { state, send }
                } else {
                    let mut d = self;
                    d.set_list(t, empty_array());
                    let next = match t {
                        CheckKind::Tools => Some(CheckKind::Resources),
                        CheckKind::Resources => Some(CheckKind::Prompts),
                        CheckKind::Prompts => None,
                    };
                    d.proceed_from(next)
                }
            },
        }
    }

    /// Takes the response to the awaited request: see `discovery_step`.
    pub fn advance(self, response: Json) -> (r: Result<Progress, Error>)
        ensures
            progress_matches(r, discovery_step(self@, response@)),
            r matches Ok(Progress::Finished(c)) ==> c@.lists_are_normal() && c.lists_are_arrays(),
            r matches Ok(Progress::Continue { state, send }) ==> {
                &&& send.len() > 0
                &&& forall|i: int| 0 <= i < send.len() ==> #[trigger] is_jsonrpc2(messages_view(send@)[i])
                &&& state@.stage matches Stage::Listing(s)
                &&& is_request(messages_view(send@)[send.len() - 1], state@.awaiting, list_method(s))
                &&& state@.awaiting == self@.next_id
                &&& (s == CheckKind::Tools || state@.capabilities.field(surface_word(s)) is Some)
            },
    {
        proof {
            lemma_discovery_sends_jsonrpc(self@, response@);
            use_type_invariant(&self);
            lemma_discovery_step_wf(self@, response@);
            if let Ok(ProgressV::Finished(c)) = discovery_step(self@, response@) {
                lemma_normal_is_array(c.tools);
                lemma_normal_is_array(c.resources);
                lemma_normal_is_array(c.prompts);
            }
        }
        match self.stage {
            Stage::Initializing => {
                let (capabilities, protocol_version) = {
                    let result = response.get("result");
                    let capabilities = match result {
                        Some(result) => match result.get("capabilities") {
                            Some(caps) => caps.duplicate(),
                            None => empty_object(),
                        },
                        None => empty_object(),
                    };
                    let protocol_version = match result {
                        Some(result) => match result.get("protocolVersion") {
                            Some(v) => match v.as_str() {
                                Some(s) => Some(s.clone()),
                                None => None,
                            },
                            None => None,
                        },
                        None => None,
                    };
                    (capabilities, protocol_version)
                };
                let id = self.next_id;
                let mut send = Vec::new();
                send.push(make_initialized_notification());
                send.push(make_list_request(id, CheckKind::Tools));
                proof {
                    assert(messages_view(send@) =~= seq![
                        initialized_notification(),
                        list_request(id, CheckKind::Tools),
                    ]);
                }
                let state = Discovery {
                    stage: Stage::Listing(CheckKind::Tools),
                    awaiting: id,
                    next_id: id + 1,
                    protocol_version,
                    capabilities,
                    ..self
                };
                Ok(Progress::Continue { state, send })
            },
            Stage::Listing(surface) => {
                let raw = match response.get("result") {
                    Some(result) => match result.get(surface.key_name()) {
                        Some(list) => list.duplicate(),
                        None => {
                            return Err(Error::MissingListResult { surface });
                        },
                    },
                    None => {
                        return Err(Error::MissingListResult { surface });
                    },
                };
                let ghost raw_view = raw@;
                let list = normalize_named_items(raw)?;
                proof {
                    lemma_result_is_normal(raw_view);
                }
                let mut d = self;
                d.set_list(surface, list);
                let next = match surface {
                    CheckKind::Tools => Some(CheckKind::Resources),
                    CheckKind::Resources => Some(CheckKind::Prompts),
                    CheckKind::Prompts => None,
                };
                Ok(d.proceed_from(next))
            },
        }
    }
}

/// The state can go on from surface `from`: the lists before it are
/// normal and the ids left suffice.
pub open spec fn ready_for(d: DiscoveryV, from: Option<CheckKind>) -> bool {
    &&& 2 <= d.next_id <= 5
    &&& match from {
        None => normal_list(d.tools) && normal_list(d.resources) && normal_list(d.prompts),
        Some(CheckKind::Tools) => d.next_id == 2,
        Some(CheckKind::Resources) => normal_list(d.tools) && d.next_id <= 3,
        Some(CheckKind::Prompts) => normal_list(d.tools) && normal_list(d.resources) && d.next_id
            <= 4,
    }
}

/// Proceeding from a state ready for `from` keeps the state consistent,
/// and a finished contract has three normal lists.
pub proof fn lemma_proceed_wf(d: DiscoveryV, from: Option<CheckKind>)
    requires
        ready_for(d, from),
    ensures
        match proceed(d, from) {
            ProgressV::Continue { state, send } => state.wf(),
            ProgressV::Finished(c) => c.lists_are_normal(),
        },
    decreases remaining_surfaces(from),
{
    lemma_empty_list_normal();
    if let Some(t) = from {
        if !requested(d.capabilities, t) {
            lemma_proceed_wf(d.with_list(t, empty_list()), following(t));
        }
    }
}

/// Every step of discovery from a consistent state leads to a consistent
/// state, or to a contract whose three lists are arrays.
pub proof fn lemma_discovery_step_wf(d: DiscoveryV, response: JsonV)
    requires
        d.wf(),
    ensures
        discovery_step(d, response) matches Ok(ProgressV::Continue { state, send }) ==> state.wf(),
        discovery_step(d, response) matches Ok(ProgressV::Finished(c)) ==> c.lists_are_normal(),
{
    if let Stage::Listing(surface) = d.stage {
        if let Some(raw) = list_of(response, surface) {
            if let Ok(list) = named_items_result(raw) {
                lemma_result_is_normal(raw);
                lemma_proceed_wf(d.with_list(surface, list), following(surface));
            }
        }
    }
}

/// A JSON-RPC 2.0 message: its `jsonrpc` member is the string `2.0`.
pub open spec fn is_jsonrpc2(m: JsonV) -> bool {
    m.field("jsonrpc"@) == Some(JsonV::Str("2.0"@))
}

/// A JSON-RPC 2.0 request with the id and the method.
pub open spec fn is_request(m: JsonV, id: u64, method: Seq<char>) -> bool {
    &&& is_jsonrpc2(m)
    &&& m.field("id"@) == Some(JsonV::Number(Number::PosInt(id)))
    &&& m.field("method"@) == Some(JsonV::Str(method))
}

/// The MCP method that lists a surface.
pub open spec fn list_method(surface: CheckKind) -> Seq<char> {
    match surface {
        CheckKind::Tools => "tools/list"@,
        CheckKind::Resources => "resources/list"@,
        CheckKind::Prompts => "prompts/list"@,
    }
}

/// The parameters of an `initialize` request ask for MCP version
/// `2025-06-18` and name this client, `astray-verify`, at its version.
pub open spec fn names_client(m: JsonV, client_version: Seq<char>) -> bool {
    &&& m.field("params"@) matches Some(p)
    &&& p.field("protocolVersion"@) == Some(JsonV::Str("2025-06-18"@))
    &&& p.field("clientInfo"@) matches Some(info)
    &&& info.field("name"@) == Some(JsonV::Str("astray-verify"@))
    &&& info.field("version"@) == Some(JsonV::Str(client_version))
}

/// The `initialize` request is a JSON-RPC 2.0 request with id 1 that asks
/// for the MCP version this client speaks and names the client.
pub proof fn lemma_initialize_request_is_jsonrpc(client_version: Seq<char>)
    ensures
        is_request(initialize_request(client_version), 1, "initialize"@),
        names_client(initialize_request(client_version), client_version),
{
    reveal_strlit("id");
    reveal_strlit("jsonrpc");
    reveal_strlit("method");
    reveal_strlit("params");
    reveal_strlit("capabilities");
    reveal_strlit("clientInfo");
    reveal_strlit("protocolVersion");
    reveal_strlit("name");
    reveal_strlit("version");
    reveal_strlit("2.0");
    reveal_strlit("initialize");
    reveal_strlit("2025-06-18");
    reveal_strlit("astray-verify");
    let e = initialize_request(client_version)->Object_0;
    assert(e[0].0 == "id"@ && e[1].0 == "jsonrpc"@ && e[2].0 == "method"@ && e[3].0 == "params"@);
    assert("id"@.len() == 2 && "jsonrpc"@.len() == 7 && "method"@.len() == 6 && "params"@.len() == 6);
    assert("method"@[0] != "params"@[0]);
    lemma_four_keys_differ(e);
    lemma_members_found(e);
    let p = e[3].1->Object_0;
    assert(p[0].0 == "capabilities"@ && p[1].0 == "clientInfo"@ && p[2].0 == "protocolVersion"@);
    assert("capabilities"@.len() == 12 && "clientInfo"@.len() == 10 && "protocolVersion"@.len() == 15);
    lemma_three_keys_differ(p);
    lemma_members_found(p);
    let info = p[1].1->Object_0;
    assert(info[0].0 == "name"@ && info[1].0 == "version"@);
    assert("name"@.len() == 4 && "version"@.len() == 7);
    lemma_two_keys_differ(info);
    lemma_members_found(info);
    assert(MCP_VERSION@ == "2025-06-18"@);
}

/// The `initialized` notification is a JSON-RPC 2.0 notification: it has
/// the method and no id.
pub proof fn lemma_initialized_notification_is_jsonrpc()
    ensures
        is_jsonrpc2(initialized_notification()),
        initialized_notification().field("method"@) == Some(JsonV::Str("notifications/initialized"@)),
        initialized_notification().field("id"@) is None,
{
    reveal_strlit("id");
    reveal_strlit("jsonrpc");
    reveal_strlit("method");
    reveal_strlit("2.0");
    reveal_strlit("notifications/initialized");
    let e = initialized_notification()->Object_0;
    assert(e[0].0 == "jsonrpc"@ && e[1].0 == "method"@);
    assert("id"@.len() == 2 && "jsonrpc"@.len() == 7 && "method"@.len() == 6);
    lemma_two_keys_differ(e);
    lemma_members_found(e);
    reveal_with_fuel(crate::entries::lookup, 3);
    assert(e.drop_last().drop_last() =~= Seq::<(Seq<char>, JsonV)>::empty());
    assert("id"@ != e[1].0 && "id"@ != e[0].0);
}

/// A list request is a JSON-RPC 2.0 request with the id it is given, the
/// method that lists the surface, and empty parameters.
pub proof fn lemma_list_request_is_jsonrpc(id: u64, surface: CheckKind)
    ensures
        is_request(list_request(id, surface), id, list_method(surface)),
        list_request(id, surface).field("params"@) == Some(JsonV::Object(Seq::empty())),
{
    reveal_strlit("id");
    reveal_strlit("jsonrpc");
    reveal_strlit("method");
    reveal_strlit("params");
    reveal_strlit("2.0");
    let e = list_request(id, surface)->Object_0;
    assert(e[0].0 == "id"@ && e[1].0 == "jsonrpc"@ && e[2].0 == "method"@ && e[3].0 == "params"@);
    assert("id"@.len() == 2 && "jsonrpc"@.len() == 7 && "method"@.len() == 6 && "params"@.len() == 6);
    assert("method"@[0] != "params"@[0]);
    lemma_four_keys_differ(e);
    lemma_members_found(e);
    match surface {
        CheckKind::Tools => {},
        CheckKind::Resources => {},
        CheckKind::Prompts => {},
    }
}

/// Going on from a surface either finishes or sends one list request, for
/// the surface now listed, with the id now awaited.
proof fn lemma_proceed_sends_jsonrpc(d: DiscoveryV, from: Option<CheckKind>)
    ensures
        proceed(d, from) matches ProgressV::Continue { state, send } ==> {
            &&& state.stage matches Stage::Listing(s)
            &&& send.len() == 1
            &&& is_request(send[0], state.awaiting, list_method(s))
            &&& state.awaiting == d.next_id
            &&& state.capabilities == d.capabilities
            &&& (s == CheckKind::Tools || d.capabilities.field(surface_word(s)) is Some)
        },
    decreases remaining_surfaces(from),
{
    if let Some(t) = from {
        if requested(d.capabilities, t) {
            lemma_list_request_is_jsonrpc(d.next_id, t);
            match t {
                CheckKind::Tools => {},
                CheckKind::Resources => {},
                CheckKind::Prompts => {},
            }
        } else {
            lemma_proceed_sends_jsonrpc(d.with_list(t, empty_list()), following(t));
        }
    }
}

/// Every message discovery sends is a JSON-RPC 2.0 message, and the last
/// one is the request for the surface now listed, carrying the next id; a
/// surface other than tools is asked for only when the server advertises
/// the capability of its name.
pub proof fn lemma_discovery_sends_jsonrpc(d: DiscoveryV, response: JsonV)
    ensures
        discovery_step(d, response) matches Ok(ProgressV::Continue { state, send }) ==> {
            &&& send.len() > 0
            &&& forall|i: int| 0 <= i < send.len() ==> #[trigger] is_jsonrpc2(send[i])
            &&& state.stage matches Stage::Listing(s)
            &&& is_request(send[send.len() - 1], state.awaiting, list_method(s))
            &&& state.awaiting == d.next_id
            &&& (s == CheckKind::Tools || state.capabilities.field(surface_word(s)) is Some)
        },
{
    match d.stage {
        Stage::Initializing => {
            lemma_initialized_notification_is_jsonrpc();
            lemma_list_request_is_jsonrpc(d.next_id, CheckKind::Tools);
            let send = seq![initialized_notification(), list_request(d.next_id, CheckKind::Tools)];
            assert(send[send.len() - 1] == list_request(d.next_id, CheckKind::Tools));
            assert(forall|i: int| 0 <= i < send.len() ==> #[trigger] is_jsonrpc2(send[i])) by {
                assert(send[0] == initialized_notification());
                assert(send[1] == list_request(d.next_id, CheckKind::Tools));
            }
        },
        Stage::Listing(surface) => {
            if let Some(raw) = list_of(response, surface) {
                if let Ok(list) = named_items_result(raw) {
                    lemma_proceed_sends_jsonrpc(d.with_list(surface, list), following(surface));
                }
            }
        },
    }
}

} // verus!
