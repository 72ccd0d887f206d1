//! The state of the local tool server, kept apart from the transport that
//! serves it: whether it runs, on which port and address, and the project and
//! deployment it acts for.

use vstd::prelude::*;
use crate::models::{clone_opt_string, opt_view};
use crate::text::{i64_numeral, numeral};

verus! {

/// How the tool server is to be started.
#[derive(Debug, Clone, Copy, PartialEq, Eq, Structural)]
pub struct McpConfig {
    /// The port to bind; 0 lets the system choose.
    pub port: u16,
    pub auto_start: bool,
}

impl Default for McpConfig {
    fn default() -> (r: McpConfig)
        ensures
            r.port == 0,
            r.auto_start,
    {
        McpConfig { port: 0, auto_start: true }
    }
}

/// What the tool server is doing.
#[derive(Debug)]
pub struct McpStatus {
    pub running: bool,
    pub port: Option<u16>,
    pub url: Option<String>,
    pub connected_clients: usize,
}

/// The mathematical content of an [`McpStatus`].
pub struct McpStatusView {
    pub running: bool,
    pub port: Option<u16>,
    pub url: Option<Seq<char>>,
    pub connected_clients: usize,
}

impl View for McpStatus {
    type V = McpStatusView;

    open spec fn view(&self) -> McpStatusView {
        McpStatusView {
            running: self.running,
            port: self.port,
            url: opt_view(self.url),
            connected_clients: self.connected_clients,
        }
    }
}

impl McpStatus {
    /// A copy of the status.
    pub fn duplicate(&self) -> (r: McpStatus)
        ensures
            r@ == self@,
    {
        McpStatus {
            running: self.running,
            port: self.port,
            url: clone_opt_string(&self.url),
            connected_clients: self.connected_clients,
        }
    }
}

/// The server's state, owned by the application and passed to each operation.
#[derive(Debug)]
pub struct McpServerState {
    pub config: McpConfig,
    pub status: McpStatus,
    /// Set when a stop has been asked for and the transport must be shut down.
    pub shutdown_requested: bool,
    pub project_path: Option<String>,
    pub deployment_url: Option<String>,
    pub deploy_key: Option<String>,
}

/// The address at which the server on `port` answers.
pub open spec fn server_url(port: u16) -> Seq<char> {
    "http://localhost:"@ + numeral(port as int) + "/mcp"@
}

impl McpServerState {
    /// A stopped server with the default configuration and nothing set.
    pub fn new() -> (r: McpServerState)
        ensures
            !r.status.running,
            r.status.port is None,
            r.status.url is None,
            r.status.connected_clients == 0,
            r.config.port == 0,
            r.config.auto_start,
            !r.shutdown_requested,
            r.project_path is None,
            r.deployment_url is None,
            r.deploy_key is None,
    {
        McpServerState {
            config: McpConfig { port: 0, auto_start: true },
            status: McpStatus { running: false, port: None, url: None, connected_clients: 0 },
            shutdown_requested: false,
            project_path: None,
            deployment_url: None,
            deploy_key: None,
        }
    }
}

/// Checks that a start may proceed: refused while the server runs.
pub fn begin_start(state: &McpServerState) -> (r: Result<(), String>)
    ensures
        r is Ok <==> !state.status.running,
        r is Err ==> r->Err_0@ == "MCP server is already running"@,
{
    if state.status.running {
        Err(String::from_str("MCP server is already running"))
    } else {
        Ok(())
    }
}

/// Records that the server now listens on `port`.
pub fn mark_started(state: &mut McpServerState, port: u16)
    ensures
        final(state).status.running,
        final(state).status.port == Some(port),
        opt_view(final(state).status.url) == Some(server_url(port)),
        final(state).status.connected_clients == old(state).status.connected_clients,
        !final(state).shutdown_requested,
        final(state).config == old(state).config,
        opt_view(final(state).project_path) == opt_view(old(state).project_path),
        opt_view(final(state).deployment_url) == opt_view(old(state).deployment_url),
        opt_view(final(state).deploy_key) == opt_view(old(state).deploy_key),
{
    let mut url = String::from_str("http://localhost:");
    let digits = i64_numeral(port as i64);
    url.append(digits.as_str());
    url.append("/mcp");
    state.status.running = true;
    state.status.port = Some(port);
    state.status.url = Some(url);
    state.shutdown_requested = false;
}

/// Records that the server has shut down.
pub fn mark_stopped(state: &mut McpServerState)
    ensures
        !final(state).status.running,
        final(state).status.port is None,
        final(state).status.url is None,
        final(state).status.connected_clients == old(state).status.connected_clients,
        final(state).shutdown_requested == old(state).shutdown_requested,
        final(state).config == old(state).config,
        opt_view(final(state).project_path) == opt_view(old(state).project_path),
        opt_view(final(state).deployment_url) == opt_view(old(state).deployment_url),
        opt_view(final(state).deploy_key) == opt_view(old(state).deploy_key),
{
    state.status.running = false;
    state.status.port = None;
    state.status.url = None;
}

/// Asks a running server to stop; refused when it is not running. The status
/// changes only once the transport reports that it has shut down.
pub fn stop_server(state: &mut McpServerState) -> (r: Result<(), String>)
    ensures
        r is Ok <==> old(state).status.running,
        r is Err ==> r->Err_0@ == "MCP server is not running"@,
        final(state).shutdown_requested == (old(state).shutdown_requested || old(state).status.running),
        final(state).status@ == old(state).status@,
        final(state).config == old(state).config,
        opt_view(final(state).project_path) == opt_view(old(state).project_path),
        opt_view(final(state).deployment_url) == opt_view(old(state).deployment_url),
        opt_view(final(state).deploy_key) == opt_view(old(state).deploy_key),
{
    if !state.status.running {
        return Err(String::from_str("MCP server is not running"));
    }
    state.shutdown_requested = true;
    Ok(())
}

/// The current status.
pub fn get_status(state: &McpServerState) -> (r: McpStatus)
    ensures
        r@ == state.status@,
{
    state.status.duplicate()
}

/// Sets the project that the tools act on.
pub fn set_project_path(state: &mut McpServerState, path: Option<String>)
    ensures
        opt_view(final(state).project_path) == opt_view(path),
        final(state).status@ == old(state).status@,
        final(state).config == old(state).config,
        final(state).shutdown_requested == old(state).shutdown_requested,
        opt_view(final(state).deployment_url) == opt_view(old(state).deployment_url),
        opt_view(final(state).deploy_key) == opt_view(old(state).deploy_key),
{
    state.project_path = path;
}

/// Sets the deployment and key that the tools use.
pub fn set_deployment_credentials(state: &mut McpServerState, url: Option<String>, key: Option<String>)
    ensures
        opt_view(final(state).deployment_url) == opt_view(url),
        opt_view(final(state).deploy_key) == opt_view(key),
        final(state).status@ == old(state).status@,
        final(state).config == old(state).config,
        final(state).shutdown_requested == old(state).shutdown_requested,
        opt_view(final(state).project_path) == opt_view(old(state).project_path),
{
    state.deployment_url = url;
    state.deploy_key = key;
}

} // verus!
