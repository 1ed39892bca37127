use tts_backend::api::{
    TtsBackendConfig, TtsBackendData, TtsBackendMsg, TtsBeControl, TtsBeOpcode, TtsError,
    MAX_TEXT_BYTES, MAX_WAV_BUF_SAMPLES,
};
use tts_backend::codec::{
    decode_chunk, decode_command, decode_config, decode_request, encode_chunk, encode_config,
    encode_request, Command, CHUNK_WIRE_LEN, CONFIG_WIRE_LEN,
};
use tts_backend::dispatch::{config_transfer, synthesis_transfer};
use tts_backend::lifecycle::{close_releases, count_after_close, count_after_open};
use tts_backend::router::{BackendEvent, CallbackRouter, Delivery, Phase};

fn config(sid: [u32; 4], op: u32, hint: Option<u32>) -> TtsBackendConfig {
    TtsBackendConfig { sid, op, samples_per_cb: hint }
}

fn chunk(samples: &[u16], control: Option<TtsBeControl>) -> TtsBackendData {
    TtsBackendData::from_samples(samples, 0, samples.len(), control)
}

#[test]
fn opcodes_have_fixed_numbers() {
    assert_eq!(TtsBeOpcode::StrToWav.to_u32(), 0);
    assert_eq!(TtsBeOpcode::RegisterCb.to_u32(), 1);
    assert_eq!(TtsBeOpcode::Quit.to_u32(), 2);
    assert_eq!(TtsBeOpcode::from_u32(1), Some(TtsBeOpcode::RegisterCb));
    assert_eq!(TtsBeOpcode::from_u32(3), None);
}

#[test]
fn synthesis_of_text_at_the_bound_is_sent() {
    let text = "a".repeat(MAX_TEXT_BYTES);
    let t = synthesis_transfer(&text).unwrap();
    assert_eq!(t.opcode, 0);
    assert_eq!(t.payload.len(), 4 + MAX_TEXT_BYTES);
    assert_eq!(&t.payload[0..4], &[0x00, 0x08, 0, 0]);
}

#[test]
fn synthesis_of_multibyte_text_is_sent() {
    let t = synthesis_transfer("héllo").unwrap();
    assert_eq!(t.payload, vec![6, 0, 0, 0, b'h', 0xc3, 0xa9, b'l', b'l', b'o']);
}

#[test]
fn synthesis_of_text_over_the_bound_fails() {
    let text = "a".repeat(MAX_TEXT_BYTES + 1);
    assert!(matches!(synthesis_transfer(&text), Err(TtsError::TextTooLong)));
    let text = "é".repeat(1025);
    assert!(matches!(TtsBackendMsg::new(&text), Err(TtsError::TextTooLong)));
}

#[test]
fn empty_text_is_a_valid_request() {
    let t = synthesis_transfer("").unwrap();
    assert_eq!(t.payload, vec![0, 0, 0, 0]);
}

#[test]
fn config_transfer_layout() {
    let t = config_transfer([1, 2, 3, 4], 7, Some(256));
    assert_eq!(t.opcode, 1);
    assert_eq!(
        t.payload,
        vec![1, 0, 0, 0, 2, 0, 0, 0, 3, 0, 0, 0, 4, 0, 0, 0, 7, 0, 0, 0, 1, 0, 1, 0, 0]
    );
    let t = config_transfer([0x0102_0304, 0, 0, 0xffff_ffff], 9, None);
    assert_eq!(t.payload.len(), CONFIG_WIRE_LEN);
    assert_eq!(&t.payload[0..4], &[4, 3, 2, 1]);
    assert_eq!(&t.payload[12..16], &[0xff, 0xff, 0xff, 0xff]);
    assert_eq!(&t.payload[20..25], &[0, 0, 0, 0, 0]);
}

#[test]
fn config_round_trip() {
    for c in [config([1, 2, 3, 4], 7, None), config([9, 8, 7, 6], 0xdead_beef, Some(160))] {
        let mut bytes = encode_config(&c);
        assert_eq!(decode_config(&bytes), Ok(c));
        bytes.resize(4096, 0xaa);
        assert_eq!(decode_config(&bytes), Ok(c));
    }
}

#[test]
fn config_decode_errors() {
    assert_eq!(decode_config(&[0u8; 24]), Err(TtsError::WrongSize));
    let mut bytes = encode_config(&config([1, 2, 3, 4], 7, None));
    bytes[20] = 2;
    assert_eq!(decode_config(&bytes), Err(TtsError::BadTag));
    bytes[20] = 0;
    bytes[21] = 5;
    assert_eq!(decode_config(&bytes), Err(TtsError::BadTag));
}

#[test]
fn request_round_trip() {
    let m = TtsBackendMsg::new("hello, wörld").unwrap();
    let mut bytes = encode_request(&m);
    assert_eq!(decode_request(&bytes), Ok(m.clone()));
    bytes.resize(4096, 0);
    assert_eq!(decode_request(&bytes).unwrap().text, "hello, wörld");
}

#[test]
fn request_decode_errors() {
    assert_eq!(decode_request(&[1, 0]), Err(TtsError::WrongSize));
    assert_eq!(decode_request(&[5, 0, 0, 0, b'a']), Err(TtsError::WrongSize));
    assert_eq!(decode_request(&[0x01, 0x08, 0, 0]), Err(TtsError::LengthTooLarge));
    assert_eq!(decode_request(&[2, 0, 0, 0, 0xc3, 0x28]), Err(TtsError::NotUtf8));
}

#[test]
fn chunk_round_trip() {
    let samples: Vec<u16> = (0..300u16).map(|i| i * 211).collect();
    for control in [None, Some(TtsBeControl::Abort), Some(TtsBeControl::End)] {
        let d = chunk(&samples, control);
        let bytes = encode_chunk(&d);
        assert_eq!(bytes.len(), CHUNK_WIRE_LEN);
        let back = decode_chunk(&bytes).unwrap();
        assert_eq!(back, d);
        assert_eq!(back.samples(), samples);
    }
}

#[test]
fn chunk_layout() {
    let d = chunk(&[0x1234, 0xabcd], Some(TtsBeControl::End));
    let bytes = encode_chunk(&d);
    assert_eq!(&bytes[0..8], &[2, 0, 0, 0, 0x34, 0x12, 0xcd, 0xab]);
    assert_eq!(bytes[8], 0);
    assert_eq!(bytes[CHUNK_WIRE_LEN - 1], 2);
}

#[test]
fn empty_unmarked_chunk_is_accepted() {
    let d = chunk(&[], None);
    assert!(d.is_valid());
    let back = decode_chunk(&encode_chunk(&d)).unwrap();
    assert_eq!(back.len, 0);
    assert_eq!(back.control, None);
    assert!(back.samples().is_empty());
}

#[test]
fn full_chunk_is_accepted_and_longer_is_rejected() {
    let samples = vec![7u16; MAX_WAV_BUF_SAMPLES];
    let d = chunk(&samples, None);
    let mut bytes = encode_chunk(&d);
    assert_eq!(decode_chunk(&bytes).unwrap().len, 1024);
    bytes[0..4].copy_from_slice(&1025u32.to_le_bytes());
    assert_eq!(decode_chunk(&bytes), Err(TtsError::LengthTooLarge));
    let over = TtsBackendData { data: [0; MAX_WAV_BUF_SAMPLES], len: 1025, control: None };
    assert!(!over.is_valid());
}

#[test]
fn chunk_decode_other_errors() {
    assert_eq!(decode_chunk(&[0u8; CHUNK_WIRE_LEN - 1]), Err(TtsError::WrongSize));
    let mut bytes = encode_chunk(&chunk(&[1, 2, 3], None));
    bytes[CHUNK_WIRE_LEN - 1] = 3;
    assert_eq!(decode_chunk(&bytes), Err(TtsError::BadTag));
}

#[test]
fn commands_decode_by_opcode() {
    let c = config([1, 2, 3, 4], 7, Some(64));
    assert_eq!(decode_command(1, &encode_config(&c)), Ok(Command::Configure(c)));
    let t = synthesis_transfer("hello").unwrap();
    match decode_command(t.opcode, &t.payload) {
        Ok(Command::Speak(m)) => assert_eq!(m.text, "hello"),
        other => panic!("unexpected {:?}", other),
    }
    assert_eq!(decode_command(2, &[]), Ok(Command::Quit));
    assert_eq!(decode_command(3, &[]), Err(TtsError::UnknownOpcode));
    assert_eq!(decode_command(1, &[0u8; 3]), Err(TtsError::WrongSize));
}

#[test]
fn handle_count_releases_once() {
    let mut count = 0u32;
    for _ in 0..3 {
        count = count_after_open(count).unwrap();
    }
    let mut releases = 0;
    for _ in 0..3 {
        if close_releases(count) {
            releases += 1;
        }
        count = count_after_close(count).unwrap();
    }
    assert_eq!(count, 0);
    assert_eq!(releases, 1);
    assert_eq!(count_after_close(0), None);
    assert_eq!(count_after_open(u32::MAX), None);
    assert!(!close_releases(2));
}

fn speak(router: &mut CallbackRouter, samples: Vec<u16>) -> Vec<Delivery> {
    let mut out = router.step(BackendEvent::Request);
    out.extend(router.step(BackendEvent::Audio(samples)));
    out.extend(router.step(BackendEvent::Finished));
    out
}

#[test]
fn hello_scenario_stream_is_data_then_end() {
    let mut router = CallbackRouter::new();
    let t = config_transfer([1, 2, 3, 4], 7, None);
    let cfg = match decode_command(t.opcode, &t.payload) {
        Ok(Command::Configure(c)) => c,
        other => panic!("unexpected {:?}", other),
    };
    assert!(router.step(BackendEvent::Configure(cfg)).is_empty());
    let t = synthesis_transfer("hello").unwrap();
    assert!(matches!(decode_command(t.opcode, &t.payload), Ok(Command::Speak(_))));
    let samples: Vec<u16> = (0..512u16).collect();
    let out = speak(&mut router, samples.clone());
    let received: Vec<TtsBackendData> =
        out.iter().map(|d| decode_chunk(&encode_chunk(&d.chunk)).unwrap()).collect();
    assert_eq!(received.len(), 2);
    assert!(out.iter().all(|d| d.sid == [1, 2, 3, 4] && d.op == 7));
    assert_eq!(received[0].len, 512);
    assert_eq!(received[0].control, None);
    assert_eq!(received[0].samples(), samples);
    assert_eq!(received[1].len, 0);
    assert_eq!(received[1].control, Some(TtsBeControl::End));
    assert_eq!(router.phase, Phase::Idle);
}

#[test]
fn audio_is_split_by_hint() {
    let mut router = CallbackRouter::new();
    router.step(BackendEvent::Configure(config([5, 5, 5, 5], 1, Some(100))));
    router.step(BackendEvent::Request);
    let out = router.step(BackendEvent::Audio((0..250u16).collect()));
    let lens: Vec<u32> = out.iter().map(|d| d.chunk.len).collect();
    assert_eq!(lens, vec![100, 100, 50]);
    assert_eq!(out[2].chunk.samples(), (200..250u16).collect::<Vec<u16>>());
    router.step(BackendEvent::Configure(config([5, 5, 5, 5], 1, Some(5000))));
    let out = router.step(BackendEvent::Audio(vec![0; 2100]));
    let lens: Vec<u32> = out.iter().map(|d| d.chunk.len).collect();
    assert_eq!(lens, vec![1024, 1024, 52]);
}

#[test]
fn new_request_aborts_the_one_in_flight() {
    let mut router = CallbackRouter::new();
    router.step(BackendEvent::Configure(config([1, 2, 3, 4], 7, None)));
    router.step(BackendEvent::Request);
    assert_eq!(router.step(BackendEvent::Audio(vec![1, 2, 3])).len(), 1);
    let out = router.step(BackendEvent::Request);
    assert_eq!(out.len(), 1);
    assert_eq!(out[0].chunk.control, Some(TtsBeControl::Abort));
    assert_eq!(out[0].chunk.len, 0);
    let out = router.step(BackendEvent::Audio(vec![4, 5]));
    assert_eq!(out[0].chunk.control, None);
    assert_eq!(router.phase, Phase::Synthesizing);
}

#[test]
fn nothing_follows_end_until_a_new_request() {
    let mut router = CallbackRouter::new();
    router.step(BackendEvent::Configure(config([1, 2, 3, 4], 7, None)));
    let out = speak(&mut router, vec![9; 10]);
    assert_eq!(out.last().unwrap().chunk.control, Some(TtsBeControl::End));
    assert!(router.step(BackendEvent::Audio(vec![1, 2])).is_empty());
    assert!(router.step(BackendEvent::Finished).is_empty());
}

#[test]
fn reconfiguration_redirects_later_chunks_only() {
    let mut router = CallbackRouter::new();
    router.step(BackendEvent::Configure(config([1, 1, 1, 1], 10, None)));
    router.step(BackendEvent::Request);
    let first = router.step(BackendEvent::Audio(vec![1; 4]));
    router.step(BackendEvent::Configure(config([2, 2, 2, 2], 20, None)));
    let second = router.step(BackendEvent::Audio(vec![2; 4]));
    let end = router.step(BackendEvent::Finished);
    assert_eq!((first[0].sid, first[0].op), ([1, 1, 1, 1], 10));
    assert_eq!((second[0].sid, second[0].op), ([2, 2, 2, 2], 20));
    assert_eq!((end[0].sid, end[0].op), ([2, 2, 2, 2], 20));
}

#[test]
fn unconfigured_or_stopped_backend_emits_nothing() {
    let mut router = CallbackRouter::new();
    router.step(BackendEvent::Request);
    assert!(router.step(BackendEvent::Audio(vec![1, 2, 3])).is_empty());
    assert!(router.step(BackendEvent::Request).is_empty());
    router.step(BackendEvent::Configure(config([1, 2, 3, 4], 7, None)));
    router.step(BackendEvent::Quit);
    assert_eq!(router.phase, Phase::Stopped);
    assert!(router.step(BackendEvent::Request).is_empty());
    assert!(router.step(BackendEvent::Audio(vec![1])).is_empty());
    assert!(router.step(BackendEvent::Finished).is_empty());
}
