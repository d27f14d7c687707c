//! The agent side of the control protocol: dispatching inbound control
//! messages over the TCP connection table, planning upstream connections
//! behind the SSRF guard, and building the agent's replies.
use vstd::prelude::*;
use crate::table::StrMap;
use crate::protocol::{Payload, PayloadView, opt_str_view};
use crate::chunk::{b64_of, decode_chunk_data};
use crate::ssrf::{is_private_ip, blocked_str};
use vstd::utf8::encode_utf8;
use vstd::string::StringSliceAdditionalSpecFns;

verus! {

/// Request identifier to the handle of the upstream socket's write half.
pub type TcpTable = StrMap<u64>;

/// What the control loop must do for one inbound message.
pub enum AgentAction {
    /// Nothing: the message was logged, skipped, or not addressed to us.
    Idle,
    /// Open an upstream connection for a connect request.
    OpenTunnel { request_id: String, target_addr: String, target_port: u16, address_type: u8 },
    /// Write these bytes to the upstream socket behind the handle.
    WriteUpstream { conn: u64, bytes: Vec<u8> },
    /// Shut the upstream socket's write half down.
    CloseUpstream { conn: u64 },
    /// Run a shell command and stream its output back.
    RunCommand { request_id: String, command: String },
}

/// Decides the action for one inbound control message, keeping the TCP table
/// in step: chunks are written to the connection they name, missing
/// connections are skipped with a warning, and both completion and client
/// disconnect remove the entry and close the socket.
pub fn agent_dispatch(p: Payload, table: &mut TcpTable) -> (r: AgentAction)
    requires
        old(table).wf(),
    ensures
        final(table).wf(),
        match p@ {
            PayloadView::ConnectRequest { request_id, target_addr, target_port, address_type, .. } => {
                &&& final(table)@ == old(table)@
                &&& (r matches AgentAction::OpenTunnel {
                    request_id: rid,
                    target_addr: ta,
                    target_port: tp,
                    address_type: at,
                } && rid@ == request_id && ta@ == target_addr && tp == target_port && at
                    == address_type)
            },
            PayloadView::DataRequestChunk { request_id, data, .. } => {
                &&& final(table)@ == old(table)@
                &&& (!old(table)@.contains_key(request_id) ==> r is Idle)
                &&& (r matches AgentAction::WriteUpstream { conn, bytes } ==> old(
                    table,
                )@.contains_key(request_id) && conn == old(table)@[request_id] && data == b64_of(
                    bytes@,
                ))
                &&& (old(table)@.contains_key(request_id) ==> (r is Idle || r is WriteUpstream))
                &&& (old(table)@.contains_key(request_id) && (forall|b: Seq<u8>| data != b64_of(b))
                    ==> r is Idle)
                &&& (old(table)@.contains_key(request_id) ==> forall|b: Seq<u8>|
                    data == b64_of(b) ==> (r matches AgentAction::WriteUpstream { conn, bytes }
                        && conn == old(table)@[request_id] && bytes@ == b))
            },
            PayloadView::DataRequestTransferComplete { request_id, .. } => {
                &&& final(table)@ == old(table)@.remove(request_id)
                &&& !final(table)@.contains_key(request_id)
                &&& (old(table)@.contains_key(request_id) ==> (
                r matches AgentAction::CloseUpstream { conn } && conn == old(table)@[request_id]))
                &&& (!old(table)@.contains_key(request_id) ==> r is Idle)
            },
            PayloadView::ClientDisconnect { request_id } => {
                &&& final(table)@ == old(table)@.remove(request_id)
                &&& !final(table)@.contains_key(request_id)
                &&& (old(table)@.contains_key(request_id) ==> (
                r matches AgentAction::CloseUpstream { conn } && conn == old(table)@[request_id]))
                &&& (!old(table)@.contains_key(request_id) ==> r is Idle)
            },
            PayloadView::CommandRequest { request_id, command } => {
                &&& final(table)@ == old(table)@
                &&& (r matches AgentAction::RunCommand { request_id: rid, command: c } && rid@
                    == request_id && c@ == command)
            },
            _ => final(table)@ == old(table)@ && r is Idle,
        },
{
    match p {
        Payload::ConnectRequest { request_id, target_addr, target_port, address_type, .. } => {
            AgentAction::OpenTunnel { request_id, target_addr, target_port, address_type }
        },
        Payload::DataRequestChunk { request_id, data, .. } => {
            match table.get(&request_id) {
                Some(conn) => {
                    let conn = *conn;
                    match decode_chunk_data(data.as_str()) {
                        Some(bytes) => AgentAction::WriteUpstream { conn, bytes },
                        None => AgentAction::Idle,
                    }
                },
                None => AgentAction::Idle,
            }
        },
        Payload::DataRequestTransferComplete { request_id, .. } => {
            match table.remove(&request_id) {
                Some(conn) => AgentAction::CloseUpstream { conn },
                None => AgentAction::Idle,
            }
        },
        Payload::ClientDisconnect { request_id } => {
            match table.remove(&request_id) {
                Some(conn) => AgentAction::CloseUpstream { conn },
                None => AgentAction::Idle,
            }
        },
        Payload::CommandRequest { request_id, command } => {
            AgentAction::RunCommand { request_id, command }
        },
        _ => AgentAction::Idle,
    }
}

/// Handles the hub's answer to our registration; the agent only notes it.
pub fn handle_init_response(success: bool, message: Option<String>) -> (r: bool)
    ensures
        r == success,
{
    let _ = message;
    success
}

/// Records a freshly opened upstream connection and builds the success
/// acknowledgement.
pub fn on_connect_established(table: &mut TcpTable, request_id: String, conn: u64) -> (r: Payload)
    requires
        old(table).wf(),
    ensures
        final(table).wf(),
        final(table)@ == old(table)@.insert(request_id@, conn),
        r@ == (PayloadView::ConnectResponse { request_id: request_id@, success: true }),
{
    let reply = Payload::ConnectResponse { request_id: request_id.clone(), success: true };
    table.insert(request_id, conn);
    reply
}

/// The failure acknowledgement for a connect request that could not be
/// served.
pub fn connect_failed_reply(request_id: &String) -> (r: Payload)
    ensures
        r@ == (PayloadView::ConnectResponse { request_id: request_id@, success: false }),
{
    Payload::ConnectResponse { request_id: request_id.clone(), success: false }
}

/// The completion message the read pump sends when the upstream side ends.
pub fn data_response_complete(request_id: &String, success: bool, error_message: Option<String>)
    -> (r: Payload)
    ensures
        r@ == (PayloadView::DataResponseTransferComplete {
            request_id: request_id@,
            success,
            error_message: opt_str_view(error_message),
        }),
{
    Payload::DataResponseTransferComplete {
        request_id: request_id.clone(),
        success,
        error_message,
    }
}

/// The completion message of one command run.
pub fn command_complete(
    request_id: &String,
    success: bool,
    exit_code: Option<i32>,
    error_message: Option<String>,
) -> (r: Payload)
    ensures
        r@ == (PayloadView::CommandResponseTransferComplete {
            request_id: request_id@,
            success,
            exit_code,
            error_message: opt_str_view(error_message),
        }),
{
    Payload::CommandResponseTransferComplete {
        request_id: request_id.clone(),
        success,
        exit_code,
        error_message,
    }
}

/// How the tunnel executor should proceed for a connect request's target.
pub enum ConnectPlan {
    /// The address type is unknown or the guard refuses the destination:
    /// reply failure and stop.
    Refuse,
    /// Connect straight to this host text (bytes of the `host` part, without
    /// the port).
    Direct { host: Vec<u8> },
    /// A domain name: resolve it first, then plan again over the results.
    ResolveDomain,
}

/// Plans the connection for a connect request, applying the SSRF guard to
/// literal addresses: IPv4 text is used as it stands, IPv6 text is
/// bracketed, domains go to the resolver, anything else is refused.
pub fn plan_connect(address_type: u8, target_addr: &str) -> (r: ConnectPlan)
    ensures
        address_type == 1 && !blocked_str(target_addr@) ==> (
        r matches ConnectPlan::Direct { host } && host@ == encode_utf8(target_addr@)),
        address_type == 1 && blocked_str(target_addr@) ==> r is Refuse,
        address_type == 4 && !blocked_str(target_addr@) ==> (
        r matches ConnectPlan::Direct { host } && host@ == seq![0x5bu8] + encode_utf8(
            target_addr@,
        ) + seq![0x5du8]),
        address_type == 4 && blocked_str(target_addr@) ==> r is Refuse,
        address_type == 3 ==> r is ResolveDomain,
        address_type != 1 && address_type != 3 && address_type != 4 ==> r is Refuse,
{
    if address_type == 3 {
        return ConnectPlan::ResolveDomain;
    }
    if address_type != 1 && address_type != 4 {
        return ConnectPlan::Refuse;
    }
    if is_private_ip(target_addr) {
        return ConnectPlan::Refuse;
    }
    if address_type == 1 {
        let mut host: Vec<u8> = Vec::new();
        crate::codec::put_bytes(&mut host, target_addr.as_bytes());
        ConnectPlan::Direct { host }
    } else {
        let mut host: Vec<u8> = Vec::new();
        host.push(0x5b);
        crate::codec::put_bytes(&mut host, target_addr.as_bytes());
        host.push(0x5d);
        proof {
            assert(host@ =~= seq![0x5bu8] + encode_utf8(target_addr@) + seq![0x5du8]);
        }
        ConnectPlan::Direct { host }
    }
}

/// The index of the first IPv4 entry, or the list's length when none is.
pub open spec fn first_v4_index(addrs: Seq<(String, bool)>) -> int
    decreases addrs.len(),
{
    if addrs.len() == 0 {
        0
    } else if addrs[0].1 {
        0
    } else {
        1 + first_v4_index(addrs.drop_first())
    }
}

/// The entry the executor connects to: the first IPv4 result, else the first
/// result of any family.
pub open spec fn pick_index(addrs: Seq<(String, bool)>) -> int {
    if first_v4_index(addrs) < addrs.len() {
        first_v4_index(addrs)
    } else {
        0
    }
}

proof fn lemma_first_v4_found(addrs: Seq<(String, bool)>, i: int)
    requires
        0 <= i < addrs.len(),
        addrs[i].1,
        forall|j: int| 0 <= j < i ==> !addrs[j].1,
    ensures
        first_v4_index(addrs) == i,
    decreases i,
{
    if i > 0 {
        assert(!addrs[0].1);
        assert(forall|j: int| 0 <= j < i - 1 ==> !(#[trigger] addrs.drop_first()[j]).1) by {
            assert(forall|j: int| 0 <= j < i - 1 ==> #[trigger] addrs.drop_first()[j] == addrs[
                j + 1
            ]);
        }
        assert(addrs.drop_first()[i - 1].1);
        lemma_first_v4_found(addrs.drop_first(), i - 1);
    }
}

proof fn lemma_first_v4_none(addrs: Seq<(String, bool)>)
    requires
        forall|j: int| 0 <= j < addrs.len() ==> !addrs[j].1,
    ensures
        first_v4_index(addrs) == addrs.len(),
    decreases addrs.len(),
{
    if addrs.len() > 0 {
        assert(forall|j: int| 0 <= j < addrs.len() - 1 ==> !(#[trigger] addrs.drop_first()[
            j
        ]).1) by {
            assert(forall|j: int| 0 <= j < addrs.len() - 1 ==> #[trigger] addrs.drop_first()[j]
                == addrs[j + 1]);
        }
        lemma_first_v4_none(addrs.drop_first());
    }
}

/// Picks from resolver output: the first IPv4 result, else the first result
/// of any family. Each entry is the address text and whether it is IPv4.
pub fn pick_resolved(addrs: &Vec<(String, bool)>) -> (r: Option<usize>)
    ensures
        r is None <==> addrs@.len() == 0,
        r matches Some(i) ==> i as int == pick_index(addrs@) && i < addrs@.len(),
{
    let n = addrs.len();
    let mut i: usize = 0;
    while i < n
        invariant
            n == addrs@.len(),
            0 <= i <= n,
            forall|j: int| 0 <= j < i ==> !addrs@[j].1,
        decreases n - i,
    {
        if addrs[i].1 {
            proof {
                lemma_first_v4_found(addrs@, i as int);
            }
            return Some(i);
        }
        i += 1;
    }
    if n == 0 {
        None
    } else {
        proof {
            lemma_first_v4_none(addrs@);
        }
        Some(0)
    }
}

/// Plans the connection once a domain resolved: refuse when nothing resolved
/// or the guard blocks the picked entry, else connect to exactly the picked
/// entry's text as it stands.
pub fn plan_after_resolve(addrs: &Vec<(String, bool)>) -> (r: ConnectPlan)
    ensures
        addrs@.len() == 0 ==> r is Refuse,
        addrs@.len() > 0 && blocked_str(addrs@[pick_index(addrs@)].0@) ==> r is Refuse,
        addrs@.len() > 0 && !blocked_str(addrs@[pick_index(addrs@)].0@) ==> (
        r matches ConnectPlan::Direct { host } && host@ == encode_utf8(
            addrs@[pick_index(addrs@)].0@,
        )),
        !(r is ResolveDomain),
{
    let picked = match pick_resolved(addrs) {
        Some(i) => i,
        None => {
            return ConnectPlan::Refuse;
        },
    };
    let addr = &addrs[picked].0;
    proof {
        assert(addrs@[picked as int].0@ == addr@);
    }
    if is_private_ip(addr.as_str()) {
        return ConnectPlan::Refuse;
    }
    let mut host: Vec<u8> = Vec::new();
    crate::codec::put_bytes(&mut host, addr.as_str().as_bytes());
    ConnectPlan::Direct { host }
}

/// The `host:port` text the upstream connection is made to.
pub fn host_port_text(host: &[u8], port: u16) -> (r: Vec<u8>)
    ensures
        r@ == host@ + seq![0x3au8] + crate::text::dec_of(port as nat),
{
    let mut out: Vec<u8> = Vec::new();
    crate::codec::put_bytes(&mut out, host);
    out.push(0x3a);
    let mut d = crate::text::u64_to_dec(port as u64);
    out.append(&mut d);
    proof {
        assert(out@ =~= host@ + seq![0x3au8] + crate::text::dec_of(port as nat));
    }
    out
}

} // verus!
