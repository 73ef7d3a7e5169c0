//! The DIAGCTL kernel call: takes diagnostic output of a process.

use crate::sys::payloads::MessageSysDiagCtl;
use crate::utils::endpoint::Endpoint;
use crate::utils::guest_memory::Error;
use crate::utils::message::{Message, Payload};
use crate::utils::minix_errno::{EBADREQUEST, EINVAL, OK};
use crate::utils::minix_process_table::{present, proc, MinixProcessTable, TableView};
use vstd::prelude::*;

verus! {

/// Output of diagnostics.
pub const CODE_DIAG: i32 = 1;

/// A stack trace of a process.
pub const CODE_STACKTRACE: i32 = 2;

/// Registration for diagnostic signals.
pub const CODE_REGISTER: i32 = 3;

/// End of that registration.
pub const CODE_UNREGISTER: i32 = 4;

/// What DIAGCTL gives for `caller`, whose request is the payload of
/// `message`: the result of the call, and the text to put out. A request
/// for output gives the bytes that the caller holds at the address and of
/// the length in the request, where the length is not negative. The three
/// requests that are not served give `EBADREQUEST`, any other `EINVAL`.
pub open spec fn diagctl_spec(t: TableView, caller: Endpoint, message: Message) -> Result<
    (i32, Seq<u8>),
    Error,
> {
    let request = MessageSysDiagCtl::record_of(&message.payload);
    if request.code == CODE_DIAG {
        if request.len < 0 {
            Ok((EINVAL, Seq::empty()))
        } else {
            match proc(t, caller).buf_at(request.buf as u64, request.len as nat) {
                Ok(text) => Ok((OK, text)),
                Err(e) => Err(e),
            }
        }
    } else if request.code == CODE_STACKTRACE || request.code == CODE_REGISTER || request.code
        == CODE_UNREGISTER {
        Ok((EBADREQUEST, Seq::empty()))
    } else {
        Ok((EINVAL, Seq::empty()))
    }
}

/// DIAGCTL: reads the diagnostic output that `message` names. The text is
/// handed back for the controller to put out.
pub fn do_diagctl(caller: Endpoint, message: Message, process_table: &MinixProcessTable) -> (r:
    Result<(i32, Vec<u8>), Error>)
    requires
        present(process_table@, caller),
    ensures
        match r {
            Ok((code, text)) => diagctl_spec(process_table@, caller, message) == Ok::<
                (i32, Seq<u8>),
                Error,
            >((code, text@)),
            Err(e) => diagctl_spec(process_table@, caller, message) == Err::<
                (i32, Seq<u8>),
                Error,
            >(e),
        },
{
    let message: MessageSysDiagCtl = Payload::from_payload(&message.payload);
    let code: i32 = message.code;
    if code == CODE_DIAG {
        if message.len < 0 {
            return Ok((EINVAL, Vec::new()));
        }
        let process = process_table.get(caller).unwrap();
        match process.read_buf_u8(message.buf as u64, message.len as usize) {
            Ok(text) => Ok((OK, text)),
            Err(e) => Err(e),
        }
    } else if code == CODE_STACKTRACE || code == CODE_REGISTER || code == CODE_UNREGISTER {
        Ok((EBADREQUEST, Vec::new()))
    } else {
        Ok((EINVAL, Vec::new()))
    }
}

} // verus!
