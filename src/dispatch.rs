use vstd::prelude::*;
use vstd::string::StringSliceAdditionalSpecFns;
use crate::api::{ConfigView, MAX_TEXT_BYTES, TtsBackendConfig, TtsBackendMsg, TtsBeOpcode, TtsError};
use crate::codec::{config_bytes, encode_config, encode_request, request_bytes};

verus! {

/// One transfer to the backend: the operation to invoke and the buffer to lend with it.
pub struct Transfer {
    pub opcode: u32,
    pub payload: Vec<u8>,
}

/// The transfer that registers callback routing: chunks are to be delivered
/// to `dedicated_sid` under `opcode`, ideally `samples_per_cb` samples at a time.
pub fn config_transfer(dedicated_sid: [u32; 4], opcode: u32, samples_per_cb: Option<u32>) -> (r: Transfer)
    ensures
        r.opcode == TtsBeOpcode::RegisterCb.code(),
        r.payload@ == config_bytes(ConfigView { sid: dedicated_sid@, op: opcode, samples_per_cb }),
{
    let msg = TtsBackendConfig { sid: dedicated_sid, op: opcode, samples_per_cb };
    Transfer { opcode: TtsBeOpcode::RegisterCb.to_u32(), payload: encode_config(&msg) }
}

/// The transfer that asks for `text` to be spoken. Text longer than
/// `MAX_TEXT_BYTES` bytes is refused here, before anything is sent.
pub fn synthesis_transfer(text: &str) -> (r: Result<Transfer, TtsError>)
    ensures
        r is Ok <==> text.spec_bytes().len() <= MAX_TEXT_BYTES,
        r matches Ok(t) ==> t.opcode == TtsBeOpcode::StrToWav.code() && t.payload@ == request_bytes(text@),
        r matches Err(e) ==> e == TtsError::TextTooLong,
{
    match TtsBackendMsg::new(text) {
        Ok(msg) => Ok(Transfer { opcode: TtsBeOpcode::StrToWav.to_u32(), payload: encode_request(&msg) }),
        Err(e) => Err(e),
    }
}

} // verus!
