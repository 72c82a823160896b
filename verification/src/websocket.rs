//! Wire-protocol model: command and response frames, the per-connection
//! authentication state, and the dispatch decision. The embedding binary
//! owns the sockets, channels and heartbeat tasks; which frames are
//! admitted and what they mean is decided here.

use vstd::prelude::*;
use crate::kg_api::{KgApi, KgApiError};
use crate::utils::new_uuid;

verus! {

/// Command frames a client may send.
pub enum Command {
    CreateBlock {
        content: String,
        parent_id: Option<String>,
        page_name: Option<String>,
        correlation_id: Option<String>,
        temp_id: Option<String>,
    },
    UpdateBlock { block_id: String, content: String, correlation_id: Option<String> },
    DeleteBlock { block_id: String, correlation_id: Option<String> },
    CreatePage { name: String, properties: Option<Vec<(String, String)>>, correlation_id: Option<String> },
    Heartbeat,
    Auth { token: String },
    Test { message: String },
    SwitchGraph { graph_id: String },
    CreateGraph { name: Option<String>, description: Option<String> },
    DeleteGraph { graph_id: String },
}

/// Response frames the server sends. `command_id` is a fresh identifier
/// per response; `data` carries the relevant identifier as plain pairs.
pub enum Response {
    Success { command_id: String, data: Option<Vec<(String, String)>> },
    Error { command_id: String, message: String },
    Heartbeat,
}

/// Per-connection state: connections start unauthenticated.
pub struct WsConnection {
    pub id: String,
    pub authenticated: bool,
}

/// Whether a command may be processed before authentication.
pub open spec fn spec_allowed_unauthenticated(c: &Command) -> bool {
    c is Auth || c is Heartbeat || c is Test
}

/// What the session does with an incoming frame.
pub enum Dispatch {
    /// Reply with an error: the connection has not authenticated.
    RejectUnauthenticated,
    /// Mark the connection authenticated and reply with success.
    Authenticate,
    /// A client heartbeat: acknowledged silently, no response.
    Silent,
    /// Reply with success carrying the test message back.
    Echo { message: String },
    /// Hand the command to the knowledge-graph surface.
    Execute,
}

impl WsConnection {
    pub fn new(id: String) -> (r: Self)
        ensures
            r.id == id,
            !r.authenticated,
    {
        WsConnection { id, authenticated: false }
    }

    /// The session step: decide what a frame means in the current state and
    /// apply the authentication transition. Before authentication only
    /// `auth`, `heartbeat` and `test` are admitted; `auth` authenticates;
    /// a client heartbeat is never answered; everything else is executed.
    pub fn handle_frame(&mut self, command: &Command) -> (r: Dispatch)
        ensures
            final(self).id == old(self).id,
            final(self).authenticated == (old(self).authenticated || command is Auth),
            !old(self).authenticated && !spec_allowed_unauthenticated(command) <==> (
            r is RejectUnauthenticated),
            command is Auth <==> r is Authenticate,
            command is Heartbeat ==> r is Silent,
            (old(self).authenticated && !(command is Auth) && !(command is Heartbeat) && !(
            command matches Command::Test { .. })) <==> r is Execute,
    {
        match command {
            Command::Auth { .. } => {
                self.authenticated = true;
                Dispatch::Authenticate
            },
            Command::Heartbeat => Dispatch::Silent,
            Command::Test { message } => Dispatch::Echo { message: message.clone() },
            _ => {
                if self.authenticated {
                    Dispatch::Execute
                } else {
                    Dispatch::RejectUnauthenticated
                }
            },
        }
    }
}

/// Handle one command frame end to end: decide its disposition in the
/// connection's state, run the knowledge-graph operation it names, and
/// build the response frame — success with the relevant identifier, an
/// error with a textual message, or nothing for a client heartbeat.
pub fn handle_command(kg: &mut KgApi, conn: &mut WsConnection, command: Command) -> (r: Option<
    Response,
>)
    requires
        old(kg).app_state.wf(),
    ensures
        final(kg).app_state.wf(),
        final(conn).authenticated == (old(conn).authenticated || command is Auth),
        command is Heartbeat ==> r is None,
        (!old(conn).authenticated && !spec_allowed_unauthenticated(&command)) ==> (r matches Some(
            resp,
        ) && resp is Error && final(kg).app_state == old(kg).app_state),
        r matches Some(resp) ==> (resp matches Response::Success { data: d, .. } ==> (
        match command {
            Command::CreateBlock { content, parent_id, page_name, .. } => (d matches Some(dv)
                && dv@.len()
                == 1 && dv@[0].0@ == "block_id"@ && dv@[0].1@.len() == 36
                && crate::kg_api::block_added(
                &old(kg).app_state,
                &final(kg).app_state,
                dv@[0].1@,
                content@,
                (match parent_id {
                    Some(pp) => Some(pp@),
                    None => None,
                }),
                (match page_name {
                    Some(pg) => Some(pg@),
                    None => None,
                }),
            )),
            Command::UpdateBlock { block_id, content, .. } => crate::kg_api::block_updated(
                &old(kg).app_state,
                &final(kg).app_state,
                block_id@,
                content@,
            ),
            Command::DeleteBlock { block_id, .. } => crate::kg_api::block_deleted(
                &old(kg).app_state,
                &final(kg).app_state,
                block_id@,
            ),
            Command::CreatePage { name, .. } => crate::kg_api::page_created(
                &old(kg).app_state,
                &final(kg).app_state,
                name@,
            ),
            Command::SwitchGraph { graph_id } => ({
                &&& (final(kg).app_state.active_graph_id matches Some(a) && a@ == graph_id@)
                &&& crate::graph_registry::registry_has(
                    old(kg).app_state.graph_registry.graphs@,
                    graph_id@,
                )
                &&& (d matches Some(dv) && dv@.len() == 2 && dv@[0].0@ == "graph_id"@
                    && dv@[0].1@ == graph_id@)
            }),
            Command::CreateGraph { .. } => (d matches Some(dv) && dv@.len() == 2 && dv@[0].0@
                == "graph_id"@ && dv@[0].1@.len() == 36 && crate::graph_registry::registry_has(
                final(kg).app_state.graph_registry.graphs@,
                dv@[0].1@,
            ) && crate::app_state::keyed_has(final(kg).app_state.graph_managers@, dv@[0].1@)),
            Command::DeleteGraph { graph_id } => (!crate::graph_registry::registry_has(
                final(kg).app_state.graph_registry.graphs@,
                graph_id@,
            ) && !crate::app_state::keyed_has(final(kg).app_state.graph_managers@, graph_id@)),
            _ => true,
        })),
{
    let disposition = conn.handle_frame(&command);
    let command_id = new_uuid();
    match disposition {
        Dispatch::RejectUnauthenticated => Some(
            Response::Error { command_id, message: "Not authenticated".to_owned() },
        ),
        Dispatch::Authenticate => Some(Response::Success { command_id, data: None }),
        Dispatch::Silent => None,
        Dispatch::Echo { message } => {
            let mut data: Vec<(String, String)> = Vec::new();
            data.push(("message".to_owned(), message));
            Some(Response::Success { command_id, data: Some(data) })
        },
        Dispatch::Execute => {
            match command {
                Command::CreateBlock { content, parent_id, page_name, .. } => {
                    match kg.add_block(content, parent_id, page_name, None) {
                        Ok(block_id) => {
                            let mut data: Vec<(String, String)> = Vec::new();
                            data.push(("block_id".to_owned(), block_id));
                            Some(Response::Success { command_id, data: Some(data) })
                        },
                        Err(e) => Some(
                            Response::Error { command_id, message: error_text(&e) },
                        ),
                    }
                },
                Command::UpdateBlock { block_id, content, .. } => {
                    match kg.update_block(block_id, content) {
                        Ok(()) => Some(Response::Success { command_id, data: None }),
                        Err(e) => Some(
                            Response::Error { command_id, message: error_text(&e) },
                        ),
                    }
                },
                Command::DeleteBlock { block_id, .. } => {
                    match kg.delete_block(block_id) {
                        Ok(_) => Some(Response::Success { command_id, data: None }),
                        Err(e) => Some(
                            Response::Error { command_id, message: error_text(&e) },
                        ),
                    }
                },
                Command::CreatePage { name, properties, .. } => {
                    match kg.create_page(name, properties) {
                        Ok(()) => Some(Response::Success { command_id, data: None }),
                        Err(e) => Some(
                            Response::Error { command_id, message: error_text(&e) },
                        ),
                    }
                },
                Command::SwitchGraph { graph_id } => {
                    match kg.switch_graph(graph_id) {
                        Ok(info) => {
                            let mut data: Vec<(String, String)> = Vec::new();
                            data.push(("graph_id".to_owned(), info.id));
                            data.push(("graph_name".to_owned(), info.name));
                            Some(Response::Success { command_id, data: Some(data) })
                        },
                        Err(e) => Some(
                            Response::Error { command_id, message: error_text(&e) },
                        ),
                    }
                },
                Command::CreateGraph { name, description } => {
                    match kg.create_graph(name, description) {
                        Ok(info) => {
                            let mut data: Vec<(String, String)> = Vec::new();
                            data.push(("graph_id".to_owned(), info.id));
                            data.push(("graph_name".to_owned(), info.name));
                            Some(Response::Success { command_id, data: Some(data) })
                        },
                        Err(e) => Some(
                            Response::Error { command_id, message: error_text(&e) },
                        ),
                    }
                },
                Command::DeleteGraph { graph_id } => {
                    match kg.delete_graph(graph_id.as_str()) {
                        Ok(_) => Some(Response::Success { command_id, data: None }),
                        Err(e) => Some(
                            Response::Error { command_id, message: error_text(&e) },
                        ),
                    }
                },
                _ => Some(
                    Response::Error { command_id, message: "unsupported command".to_owned() },
                ),
            }
        },
    }
}

/// The textual message an error frame carries.
pub fn error_text(e: &KgApiError) -> (r: String)
    ensures
        r@.len() > 0,
{
    proof {
        reveal_strlit("No active graph");
        reveal_strlit("Content already being processed");
        reveal_strlit("Node not found: ");
        reveal_strlit("operation failed");
        assert("operation failed"@.len() == 16);
        assert("No active graph"@.len() == 15);
        assert("Content already being processed"@.len() == 31);
        assert("Node not found: "@.len() == 16);
    }
    match e {
        KgApiError::GraphError(m) => {
            if m.as_str().is_empty() {
                "operation failed".to_owned()
            } else {
                m.clone()
            }
        },
        KgApiError::NodeNotFound(id) => {
            let mut m = "Node not found: ".to_owned();
            m.append(id.as_str());
            m
        },
        KgApiError::DuplicateContent => "Content already being processed".to_owned(),
        KgApiError::NoActiveGraph => "No active graph".to_owned(),
    }
}

} // verus!
