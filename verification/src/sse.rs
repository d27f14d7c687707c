//! The hub's command-output streaming: decoding a command-response chunk's
//! bytes as text (UTF-8, falling back to Shift_JIS, then to lossy UTF-8),
//! splitting the text into lines, and deriving the server-sent events the
//! HTTP consumer receives.
use vstd::prelude::*;
use crate::chunk::{b64_of, decode_chunk_data};
use crate::codec::{put_bytes, put_i32, i32_text};
use crate::protocol::opt_str_view;
use vstd::utf8::{valid_utf8, encode_utf8};

verus! {

/// `ExitCode: `
pub const EXIT_PREFIX: [u8; 10] = [0x45, 0x78, 0x69, 0x74, 0x43, 0x6f, 0x64, 0x65, 0x3a, 0x20];

/// `Some(`
pub const SOME_OPEN: [u8; 5] = [0x53, 0x6f, 0x6d, 0x65, 0x28];

/// `None`
pub const NONE_TEXT: [u8; 4] = [0x4e, 0x6f, 0x6e, 0x65];

/// `Base64 decode error`
pub const B64_ERROR: [u8; 19] = [0x42, 0x61, 0x73, 0x65, 0x36, 0x34, 0x20, 0x64, 0x65, 0x63,
    0x6f, 0x64, 0x65, 0x20, 0x65, 0x72, 0x72, 0x6f, 0x72];

/// What the Shift_JIS decoder yields for a byte string, transcoded to UTF-8,
/// when the bytes are well-formed Shift_JIS.
pub uninterp spec fn sjis_utf8_of(bytes: Seq<u8>) -> Option<Seq<u8>>;

/// What the lossy UTF-8 conversion yields for a byte string.
pub uninterp spec fn lossy_utf8_of(bytes: Seq<u8>) -> Seq<u8>;

/// Relies on `str::from_utf8`: it succeeds exactly on valid UTF-8.
#[verifier::external_body]
fn utf8_check(v: &[u8]) -> (r: bool)
    ensures
        r == valid_utf8(v@),
{
    core::str::from_utf8(v).is_ok()
}

/// Relies on encoding_rs's SHIFT_JIS decoder without BOM handling and
/// without replacement: its result depends on the bytes alone, is UTF-8, and
/// is absent exactly when the bytes are not well-formed Shift_JIS.
#[verifier::external_body]
fn sjis_to_utf8(v: &[u8]) -> (r: Option<Vec<u8>>)
    ensures
        r is Some <==> sjis_utf8_of(v@) is Some,
        r matches Some(u) ==> sjis_utf8_of(v@) == Some(u@) && valid_utf8(u@),
{
    match encoding_rs::SHIFT_JIS.decode_without_bom_handling_and_without_replacement(v) {
        Some(cow) => Some(cow.into_owned().into_bytes()),
        None => None,
    }
}

/// Relies on `String::from_utf8_lossy`: its result depends on the bytes
/// alone and is UTF-8.
#[verifier::external_body]
fn utf8_lossy(v: &[u8]) -> (r: Vec<u8>)
    ensures
        r@ == lossy_utf8_of(v@),
        valid_utf8(r@),
{
    String::from_utf8_lossy(v).into_owned().into_bytes()
}

/// The text a chunk's bytes decode to: themselves when they are UTF-8, else
/// their Shift_JIS reading, else the lossy UTF-8 conversion.
pub open spec fn decoded_text_of(bytes: Seq<u8>) -> Seq<u8> {
    if valid_utf8(bytes) {
        bytes
    } else if sjis_utf8_of(bytes) is Some {
        sjis_utf8_of(bytes).unwrap()
    } else {
        lossy_utf8_of(bytes)
    }
}

/// Decodes command-output bytes as `decoded_text_of` says.
pub fn decode_output_bytes(v: &[u8]) -> (r: Vec<u8>)
    ensures
        r@ == decoded_text_of(v@),
{
    if utf8_check(v) {
        let mut out: Vec<u8> = Vec::new();
        put_bytes(&mut out, v);
        proof {
            assert(out@ =~= v@);
        }
        out
    } else {
        match sjis_to_utf8(v) {
            Some(u) => u,
            None => utf8_lossy(v),
        }
    }
}

/// A line with every trailing carriage return removed.
pub open spec fn strip_crs(l: Seq<u8>) -> Seq<u8>
    decreases l.len(),
{
    if l.len() > 0 && l.last() == 0x0d {
        strip_crs(l.drop_last())
    } else {
        l
    }
}

/// Splits on line feeds, stripping trailing carriage returns; text after the
/// last line feed forms a final line, and text ending in a line feed adds no
/// empty final line.
pub open spec fn lines_loop(s: Seq<u8>, i: int, cur: Seq<u8>, acc: Seq<Seq<u8>>) -> Seq<Seq<u8>>
    decreases s.len() - i when 0 <= i <= s.len()
{
    if i == s.len() {
        if cur.len() == 0 {
            acc
        } else {
            acc.push(strip_crs(cur))
        }
    } else if s[i] == 0x0a {
        lines_loop(s, i + 1, Seq::empty(), acc.push(strip_crs(cur)))
    } else {
        lines_loop(s, i + 1, cur.push(s[i]), acc)
    }
}

/// The lines of a byte text.
pub open spec fn lines_of(s: Seq<u8>) -> Seq<Seq<u8>> {
    lines_loop(s, 0, Seq::empty(), Seq::empty())
}

/// The views of a sequence of byte vectors.
pub open spec fn views_of(s: Seq<Vec<u8>>) -> Seq<Seq<u8>> {
    Seq::new(s.len(), |i: int| s[i]@)
}

fn strip_crs_exec(v: Vec<u8>) -> (r: Vec<u8>)
    ensures
        r@ == strip_crs(v@),
    decreases v@.len(),
{
    let n = v.len();
    if n > 0 && v[n - 1] == 0x0d {
        let mut v2 = v;
        v2.pop();
        proof {
            assert(v2@ =~= v@.drop_last());
        }
        strip_crs_exec(v2)
    } else {
        v
    }
}

fn split_lines_loop(s: &[u8], i: usize, cur: Vec<u8>, acc: Vec<Vec<u8>>) -> (r: Vec<Vec<u8>>)
    requires
        i <= s@.len(),
    ensures
        views_of(r@) == lines_loop(s@, i as int, cur@, views_of(acc@)),
    decreases s@.len() - i,
{
    if i == s.len() {
        if cur.len() == 0 {
            acc
        } else {
            let stripped = strip_crs_exec(cur);
            let mut acc2 = acc;
            let ghost a0 = acc2@;
            acc2.push(stripped);
            proof {
                assert(views_of(acc2@) =~= views_of(a0).push(strip_crs(cur@)));
            }
            acc2
        }
    } else if s[i] == 0x0a {
        let stripped = strip_crs_exec(cur);
        let mut acc2 = acc;
        let ghost a0 = acc2@;
        acc2.push(stripped);
        proof {
            assert(views_of(acc2@) =~= views_of(a0).push(strip_crs(cur@)));
        }
        split_lines_loop(s, i + 1, Vec::new(), acc2)
    } else {
        let mut cur2 = cur;
        cur2.push(s[i]);
        split_lines_loop(s, i + 1, cur2, acc)
    }
}

/// Splits a byte text into its lines.
pub fn split_lines(s: &[u8]) -> (r: Vec<Vec<u8>>)
    ensures
        views_of(r@) == lines_of(s@),
{
    let r = split_lines_loop(s, 0, Vec::new(), Vec::new());
    proof {
        assert(views_of(Seq::<Vec<u8>>::empty()) =~= Seq::<Seq<u8>>::empty());
    }
    r
}

/// The kind of one server-sent event of the command stream.
#[derive(Clone, Copy, Debug, PartialEq, Eq, Structural)]
pub enum SseEventKind {
    /// A line of the command's standard output.
    Stdout,
    /// A line of the command's standard error.
    Stderr,
    /// A decode failure or a line of a failed command's error message.
    CmdError,
    /// The final event carrying the exit code.
    Done,
}

/// One server-sent event: its kind and its data line, as bytes.
pub struct SseEvent {
    pub kind: SseEventKind,
    pub data: Vec<u8>,
}

/// Whether the events carry exactly these kinds and lines.
pub open spec fn events_match(evs: Seq<SseEvent>, m: Seq<(SseEventKind, Seq<u8>)>) -> bool {
    evs.len() == m.len() && forall|k: int| 0 <= k < evs.len() ==> #[trigger] evs[k].kind == m[k].0
        && evs[k].data@ == m[k].1
}

/// The events one output chunk turns into: one event per decoded line, as
/// stdout when the stream type is 1, else as stderr.
pub open spec fn chunk_events_of(stream_type: u8, bytes: Seq<u8>) -> Seq<(SseEventKind, Seq<u8>)> {
    let kind = if stream_type == 1 {
        SseEventKind::Stdout
    } else {
        SseEventKind::Stderr
    };
    Seq::new(lines_of(decoded_text_of(bytes)).len(), |k: int| (kind, lines_of(
        decoded_text_of(bytes),
    )[k]))
}

/// Derives the events for one command-response chunk. On any text the
/// base64 encoder produced, the events are exactly the decoded lines; text
/// that is no base64 at all yields one decode-error event.
pub fn chunk_events(stream_type: u8, data: &str) -> (r: Vec<SseEvent>)
    ensures
        forall|b: Seq<u8>| data@ == b64_of(b) ==> events_match(r@, chunk_events_of(stream_type, b)),
        (forall|b: Seq<u8>| data@ != b64_of(b)) ==> r@.len() == 1 && r@[0].kind
            == SseEventKind::CmdError && r@[0].data@ == B64_ERROR@,
        forall|k: int| 0 <= k < r@.len() ==> #[trigger] r@[k].kind == (if stream_type == 1 {
            SseEventKind::Stdout
        } else {
            SseEventKind::Stderr
        }) || r@[k].kind == SseEventKind::CmdError,
{
    let bytes = match decode_chunk_data(data) {
        Some(bytes) => bytes,
        None => {
            let mut msg: Vec<u8> = Vec::new();
            put_bytes(&mut msg, B64_ERROR.as_slice());
            let mut evs: Vec<SseEvent> = Vec::new();
            evs.push(SseEvent { kind: SseEventKind::CmdError, data: msg });
            return evs;
        },
    };
    let text = decode_output_bytes(bytes.as_slice());
    let mut lines = split_lines(text.as_slice());
    let kind = if stream_type == 1 {
        SseEventKind::Stdout
    } else {
        SseEventKind::Stderr
    };
    let ghost all = views_of(lines@);
    let mut evs: Vec<SseEvent> = Vec::new();
    while lines.len() > 0
        invariant
            kind == (if stream_type == 1 {
                SseEventKind::Stdout
            } else {
                SseEventKind::Stderr
            }),
            views_of(lines@) =~= all.take(lines@.len() as int),
            evs@.len() == all.len() - lines@.len(),
            forall|k: int| 0 <= k < evs@.len() ==> #[trigger] evs@[k].kind == kind
                && evs@[k].data@ == all[lines@.len() + k],
        decreases lines@.len(),
    {
        let ghost l0 = lines@;
        let line = match lines.pop() {
            Some(l) => l,
            None => vstd::pervasive::unreached(),
        };
        let ghost e0 = evs@;
        evs.insert(0, SseEvent { kind, data: line });
        proof {
            assert(views_of(lines@) =~= all.take(lines@.len() as int));
            assert(evs@.len() == all.len() - lines@.len());
            assert forall|k: int| 0 <= k < evs@.len() implies #[trigger] evs@[k].kind == kind
                && evs@[k].data@ == all[lines@.len() + k] by {
                if k == 0 {
                    assert(evs@[0].data == line);
                    assert(line@ == views_of(l0)[l0.len() - 1]);
                } else {
                    assert(evs@[k] == e0[k - 1]);
                }
            }
        }
    }
    proof {
        assert(events_match(evs@, Seq::new(all.len(), |k: int| (kind, all[k]))));
    }
    evs
}

/// The `ExitCode: ...` text of the final event.
pub open spec fn exit_code_text(ec: Option<i32>) -> Seq<u8> {
    EXIT_PREFIX@ + (match ec {
        Option::Some(n) => SOME_OPEN@ + i32_text(n as int) + seq![0x29u8],
        Option::None => NONE_TEXT@,
    })
}

/// The events a command's completion turns into: one error event per line of
/// a failed command's error message, then in every case a single done event
/// with the exit code. A completion that carries no message — successful or
/// not — yields the done event alone.
pub open spec fn complete_events_of(success: bool, ec: Option<i32>, em: Option<Seq<char>>) -> Seq<
    (SseEventKind, Seq<u8>),
> {
    let done = (SseEventKind::Done, exit_code_text(ec));
    if success {
        seq![done]
    } else {
        match em {
            Option::Some(m) => Seq::new(lines_of(encode_utf8(m)).len(), |k: int| (
                SseEventKind::CmdError,
                lines_of(encode_utf8(m))[k],
            )).push(done),
            Option::None => seq![done],
        }
    }
}

fn exit_code_bytes(ec: &Option<i32>) -> (r: Vec<u8>)
    ensures
        r@ == exit_code_text(*ec),
{
    let mut out: Vec<u8> = Vec::new();
    put_bytes(&mut out, EXIT_PREFIX.as_slice());
    match ec {
        Some(n) => {
            put_bytes(&mut out, SOME_OPEN.as_slice());
            put_i32(&mut out, *n);
            out.push(0x29);
        },
        None => {
            put_bytes(&mut out, NONE_TEXT.as_slice());
        },
    }
    proof {
        assert(out@ =~= exit_code_text(*ec));
    }
    out
}

/// Derives the events for a command's completion message.
pub fn complete_events(success: bool, exit_code: &Option<i32>, error_message: &Option<String>)
    -> (r: Vec<SseEvent>)
    ensures
        events_match(r@, complete_events_of(success, *exit_code, opt_str_view(*error_message))),
{
    let done_data = exit_code_bytes(exit_code);
    let msg = match (success, error_message) {
        (false, Some(m)) => m,
        _ => {
            let mut evs: Vec<SseEvent> = Vec::new();
            evs.push(SseEvent { kind: SseEventKind::Done, data: done_data });
            return evs;
        },
    };
    let mut err_bytes: Vec<u8> = Vec::new();
    put_bytes(&mut err_bytes, msg.as_str().as_bytes());
    let mut lines = split_lines(err_bytes.as_slice());
    let ghost all = views_of(lines@);
    let mut evs: Vec<SseEvent> = Vec::new();
    while lines.len() > 0
        invariant
            views_of(lines@) =~= all.take(lines@.len() as int),
            evs@.len() == all.len() - lines@.len(),
            forall|k: int| 0 <= k < evs@.len() ==> #[trigger] evs@[k].kind
                == SseEventKind::CmdError && evs@[k].data@ == all[lines@.len() + k],
        decreases lines@.len(),
    {
        let ghost l0 = lines@;
        let line = match lines.pop() {
            Some(l) => l,
            None => vstd::pervasive::unreached(),
        };
        let ghost e0 = evs@;
        evs.insert(0, SseEvent { kind: SseEventKind::CmdError, data: line });
        proof {
            assert(views_of(lines@) =~= all.take(lines@.len() as int));
            assert forall|k: int| 0 <= k < evs@.len() implies #[trigger] evs@[k].kind
                == SseEventKind::CmdError && evs@[k].data@ == all[lines@.len() + k] by {
                if k == 0 {
                    assert(evs@[0].data == line);
                    assert(line@ == views_of(l0)[l0.len() - 1]);
                } else {
                    assert(evs@[k] == e0[k - 1]);
                }
            }
        }
    }
    evs.push(SseEvent { kind: SseEventKind::Done, data: done_data });
    proof {
        let m = complete_events_of(success, *exit_code, opt_str_view(*error_message));
        assert(evs@.len() == m.len());
        assert forall|k: int| 0 <= k < evs@.len() implies #[trigger] evs@[k].kind == m[k].0
            && evs@[k].data@ == m[k].1 by {
            if k < evs@.len() - 1 {
                assert(m[k] == (SseEventKind::CmdError, all[k]));
            }
        }
    }
    evs
}

} // verus!
