use vstd::prelude::*;
use vstd::string::StringExecFns;
use vstd::string::StringSliceAdditionalSpecFns;
use vstd::utf8::encode_utf8;

verus! {

/// Well-known name under which the backend registers with the name server.
pub const SERVER_NAME_TTS_EXEC: &'static str = "_Text To Speech Executable_ / (external C program)";

/// Capacity of one audio chunk, in 16-bit samples.
pub const MAX_WAV_BUF_SAMPLES: usize = 1024;

/// Largest synthesis request text, in UTF-8 bytes.
pub const MAX_TEXT_BYTES: usize = 2048;

/// Operations that the backend server exposes.
#[derive(Debug, Clone, Copy, PartialEq, Eq, Structural)]
pub enum TtsBeOpcode {
    /// Take a string and translate it to wave data
    StrToWav,
    /// Register callback routing for wave data
    RegisterCb,
    /// Exit server
    Quit,
}

impl TtsBeOpcode {
    /// Wire number of each operation, in declaration order.
    pub open spec fn code(self) -> u32 {
        match self {
            TtsBeOpcode::StrToWav => 0,
            TtsBeOpcode::RegisterCb => 1,
            TtsBeOpcode::Quit => 2,
        }
    }

    pub fn to_u32(&self) -> (r: u32)
        ensures
            r == self.code(),
    {
        match self {
            TtsBeOpcode::StrToWav => 0,
            TtsBeOpcode::RegisterCb => 1,
            TtsBeOpcode::Quit => 2,
        }
    }

    /// The operation with wire number `code`, if there is one.
    pub fn from_u32(code: u32) -> (r: Option<TtsBeOpcode>)
        ensures
            r is Some <==> code <= 2,
            r matches Some(op) ==> op.code() == code,
    {
        if code == 0 {
            Some(TtsBeOpcode::StrToWav)
        } else if code == 1 {
            Some(TtsBeOpcode::RegisterCb)
        } else if code == 2 {
            Some(TtsBeOpcode::Quit)
        } else {
            None
        }
    }
}

/// Control markers that the backend attaches to an audio chunk.
#[derive(Debug, Clone, Copy, PartialEq, Eq, Structural)]
pub enum TtsBeControl {
    /// The request in flight was superseded; no more data follows for it.
    Abort,
    /// Last chunk of a completed request.
    End,
}

/// Errors of the client side and of the wire format.
#[derive(Debug, Clone, Copy, PartialEq, Eq, Structural)]
pub enum TtsError {
    /// The text to synthesize is longer than `MAX_TEXT_BYTES` bytes.
    TextTooLong,
    /// A received buffer is too short for the message it should hold.
    WrongSize,
    /// A received chunk claims more than `MAX_WAV_BUF_SAMPLES` samples.
    LengthTooLarge,
    /// A received tag byte is none of the defined values.
    BadTag,
    /// Received text is not valid UTF-8.
    NotUtf8,
    /// A message names no operation of the backend.
    UnknownOpcode,
}

/// Synthesis request: the text to speak, at most `MAX_TEXT_BYTES` bytes of UTF-8.
#[derive(Debug, Clone, PartialEq, Eq)]
pub struct TtsBackendMsg {
    pub text: String,
}

impl TtsBackendMsg {
    pub open spec fn wf(&self) -> bool {
        encode_utf8(self.text@).len() <= MAX_TEXT_BYTES
    }

    /// Builds a request; fails, without truncating, when `text` is too long.
    pub fn new(text: &str) -> (r: Result<TtsBackendMsg, TtsError>)
        ensures
            text.spec_bytes().len() <= MAX_TEXT_BYTES <==> r is Ok,
            r matches Ok(m) ==> m.text@ == text@ && m.wf(),
            r matches Err(e) ==> e == TtsError::TextTooLong,
    {
        if text.as_bytes().len() <= MAX_TEXT_BYTES {
            let s = String::from_str(text);
            Ok(TtsBackendMsg { text: s })
        } else {
            Err(TtsError::TextTooLong)
        }
    }
}

/// Callback routing registered with the backend: where audio chunks go.
#[derive(Debug, Clone, Copy, PartialEq, Eq)]
pub struct TtsBackendConfig {
    /// Address of the client's dedicated callback server.
    pub sid: [u32; 4],
    /// Opcode under which chunks are delivered to that server.
    pub op: u32,
    /// Desired samples per callback; only a hint.
    pub samples_per_cb: Option<u32>,
}

/// A configuration as values: the address as a sequence of four words.
pub struct ConfigView {
    pub sid: Seq<u32>,
    pub op: u32,
    pub samples_per_cb: Option<u32>,
}

impl View for TtsBackendConfig {
    type V = ConfigView;

    open spec fn view(&self) -> ConfigView {
        ConfigView { sid: self.sid@, op: self.op, samples_per_cb: self.samples_per_cb }
    }
}

/// What a chunk means: its valid samples and its marker.
pub struct ChunkView {
    pub samples: Seq<u16>,
    pub control: Option<TtsBeControl>,
}

/// One chunk of audio returned by the backend to the callback server.
#[derive(Debug, Clone, Copy, PartialEq, Eq)]
pub struct TtsBackendData {
    /// Sample buffer; only the first `len` entries are valid.
    pub data: [u16; MAX_WAV_BUF_SAMPLES],
    /// Number of valid samples, at most `MAX_WAV_BUF_SAMPLES`.
    pub len: u32,
    pub control: Option<TtsBeControl>,
}

impl View for TtsBackendData {
    type V = ChunkView;

    open spec fn view(&self) -> ChunkView {
        ChunkView { samples: self.data@.take(self.len as int), control: self.control }
    }
}

impl TtsBackendData {
    pub open spec fn wf(&self) -> bool {
        self.len <= MAX_WAV_BUF_SAMPLES
    }

    /// Whether the chunk's length is within capacity.
    pub fn is_valid(&self) -> (r: bool)
        ensures
            r == self.wf(),
    {
        self.len as usize <= MAX_WAV_BUF_SAMPLES
    }

    /// A chunk holding `samples[start..end]`, zero-padded, with `control`.
    pub fn from_samples(samples: &[u16], start: usize, end: usize, control: Option<TtsBeControl>) -> (r: TtsBackendData)
        requires
            start <= end <= samples@.len(),
            end - start <= MAX_WAV_BUF_SAMPLES,
        ensures
            r.wf(),
            r.len == end - start,
            r@.samples == samples@.subrange(start as int, end as int),
            r@.control == control,
            forall|j: int| end - start <= j < MAX_WAV_BUF_SAMPLES ==> r.data@[j] == 0,
    {
        let mut data = [0u16; MAX_WAV_BUF_SAMPLES];
        let mut i: usize = start;
        while i < end
            invariant
                start <= i <= end <= samples@.len(),
                end - start <= MAX_WAV_BUF_SAMPLES,
                data@.len() == MAX_WAV_BUF_SAMPLES,
                forall|j: int| 0 <= j < i - start ==> data@[j] == samples@[start + j],
                forall|j: int| i - start <= j < MAX_WAV_BUF_SAMPLES ==> data@[j] == 0,
            decreases end - i,
        {
            data[i - start] = samples[i];
            i = i + 1;
        }
        let r = TtsBackendData { data, len: (end - start) as u32, control };
        assert(r@.samples =~= samples@.subrange(start as int, end as int));
        r
    }

    /// The valid samples of a well-formed chunk.
    pub fn samples(&self) -> (r: Vec<u16>)
        requires
            self.wf(),
        ensures
            r@ == self@.samples,
    {
        let mut r: Vec<u16> = Vec::new();
        let n = self.len as usize;
        let mut i: usize = 0;
        while i < n
            invariant
                n == self.len <= MAX_WAV_BUF_SAMPLES,
                i <= n,
                r@ == self.data@.take(i as int),
            decreases n - i,
        {
            r.push(self.data[i]);
            i = i + 1;
            assert(r@ =~= self.data@.take(i as int));
        }
        r
    }
}

} // verus!
