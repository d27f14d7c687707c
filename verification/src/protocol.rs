//! The control-protocol message model: every frame exchanged between the hub
//! and an agent is one `Payload`, carried as a JSON text frame (see the codec
//! module for the wire form).
use vstd::prelude::*;

verus! {

/// A control-plane message.
#[derive(Debug, Clone, PartialEq)]
pub enum Payload {
    InitRequest {
        agent_id: String,
        ip: String,
        remote_host: String,
        country_code: String,
        city: String,
        region: String,
        asn: String,
        asn_org: String,
        os_type: String,
        os_version: String,
        hostname: String,
        kernel_version: String,
        username: String,
    },
    InitResponse { success: bool, message: Option<String> },
    InitError { error_message: String },
    ConnectRequest {
        request_id: String,
        target_addr: String,
        target_port: u16,
        agent_id: Option<String>,
        address_type: u8,
    },
    ConnectResponse { request_id: String, success: bool },
    DataRequestChunk { request_id: String, chunk_id: u32, data: String },
    DataResponseChunk { request_id: String, chunk_id: u32, data: String },
    DataResponseTransferComplete {
        request_id: String,
        success: bool,
        error_message: Option<String>,
    },
    DataRequestTransferComplete {
        request_id: String,
        success: bool,
        error_message: Option<String>,
    },
    ClientDisconnect { request_id: String },
    CommandRequest { request_id: String, command: String },
    CommandResponseChunk { request_id: String, chunk_id: u32, stream_type: u8, data: String },
    CommandResponseTransferComplete {
        request_id: String,
        success: bool,
        exit_code: Option<i32>,
        error_message: Option<String>,
    },
}

/// The mathematical shape of a `Payload`: the same variants over character
/// sequences.
pub ghost enum PayloadView {
    InitRequest {
        agent_id: Seq<char>,
        ip: Seq<char>,
        remote_host: Seq<char>,
        country_code: Seq<char>,
        city: Seq<char>,
        region: Seq<char>,
        asn: Seq<char>,
        asn_org: Seq<char>,
        os_type: Seq<char>,
        os_version: Seq<char>,
        hostname: Seq<char>,
        kernel_version: Seq<char>,
        username: Seq<char>,
    },
    InitResponse { success: bool, message: Option<Seq<char>> },
    InitError { error_message: Seq<char> },
    ConnectRequest {
        request_id: Seq<char>,
        target_addr: Seq<char>,
        target_port: u16,
        agent_id: Option<Seq<char>>,
        address_type: u8,
    },
    ConnectResponse { request_id: Seq<char>, success: bool },
    DataRequestChunk { request_id: Seq<char>, chunk_id: u32, data: Seq<char> },
    DataResponseChunk { request_id: Seq<char>, chunk_id: u32, data: Seq<char> },
    DataResponseTransferComplete {
        request_id: Seq<char>,
        success: bool,
        error_message: Option<Seq<char>>,
    },
    DataRequestTransferComplete {
        request_id: Seq<char>,
        success: bool,
        error_message: Option<Seq<char>>,
    },
    ClientDisconnect { request_id: Seq<char> },
    CommandRequest { request_id: Seq<char>, command: Seq<char> },
    CommandResponseChunk {
        request_id: Seq<char>,
        chunk_id: u32,
        stream_type: u8,
        data: Seq<char>,
    },
    CommandResponseTransferComplete {
        request_id: Seq<char>,
        success: bool,
        exit_code: Option<i32>,
        error_message: Option<Seq<char>>,
    },
}

pub open spec fn opt_str_view(o: Option<String>) -> Option<Seq<char>> {
    match o {
        Option::Some(s) => Option::Some(s@),
        Option::None => Option::None,
    }
}

impl View for Payload {
    type V = PayloadView;

    open spec fn view(&self) -> PayloadView {
        match self {
            Payload::InitRequest {
                agent_id, ip, remote_host, country_code, city, region, asn, asn_org,
                os_type, os_version, hostname, kernel_version, username,
            } => PayloadView::InitRequest {
                agent_id: agent_id@,
                ip: ip@,
                remote_host: remote_host@,
                country_code: country_code@,
                city: city@,
                region: region@,
                asn: asn@,
                asn_org: asn_org@,
                os_type: os_type@,
                os_version: os_version@,
                hostname: hostname@,
                kernel_version: kernel_version@,
                username: username@,
            },
            Payload::InitResponse { success, message } => PayloadView::InitResponse {
                success: *success,
                message: opt_str_view(*message),
            },
            Payload::InitError { error_message } => PayloadView::InitError {
                error_message: error_message@,
            },
            Payload::ConnectRequest {
                request_id, target_addr, target_port, agent_id, address_type,
            } => PayloadView::ConnectRequest {
                request_id: request_id@,
                target_addr: target_addr@,
                target_port: *target_port,
                agent_id: opt_str_view(*agent_id),
                address_type: *address_type,
            },
            Payload::ConnectResponse { request_id, success } => PayloadView::ConnectResponse {
                request_id: request_id@,
                success: *success,
            },
            Payload::DataRequestChunk { request_id, chunk_id, data } => {
                PayloadView::DataRequestChunk {
                    request_id: request_id@,
                    chunk_id: *chunk_id,
                    data: data@,
                }
            },
            Payload::DataResponseChunk { request_id, chunk_id, data } => {
                PayloadView::DataResponseChunk {
                    request_id: request_id@,
                    chunk_id: *chunk_id,
                    data: data@,
                }
            },
            Payload::DataResponseTransferComplete { request_id, success, error_message } => {
                PayloadView::DataResponseTransferComplete {
                    request_id: request_id@,
                    success: *success,
                    error_message: opt_str_view(*error_message),
                }
            },
            Payload::DataRequestTransferComplete { request_id, success, error_message } => {
                PayloadView::DataRequestTransferComplete {
                    request_id: request_id@,
                    success: *success,
                    error_message: opt_str_view(*error_message),
                }
            },
            Payload::ClientDisconnect { request_id } => PayloadView::ClientDisconnect {
                request_id: request_id@,
            },
            Payload::CommandRequest { request_id, command } => PayloadView::CommandRequest {
                request_id: request_id@,
                command: command@,
            },
            Payload::CommandResponseChunk { request_id, chunk_id, stream_type, data } => {
                PayloadView::CommandResponseChunk {
                    request_id: request_id@,
                    chunk_id: *chunk_id,
                    stream_type: *stream_type,
                    data: data@,
                }
            },
            Payload::CommandResponseTransferComplete {
                request_id, success, exit_code, error_message,
            } => PayloadView::CommandResponseTransferComplete {
                request_id: request_id@,
                success: *success,
                exit_code: *exit_code,
                error_message: opt_str_view(*error_message),
            },
        }
    }
}

} // verus!
