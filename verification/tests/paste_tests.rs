//! The paste-replay plan: delimiter resolution, joining, the strategy
//! chain, and image payload decoding.
use copas_core::paste::{
    bulk_paste_text_and_simulate, join_with_delimiter, paste_strategies, prepare_image_payload,
    resolve_delimiter, settle_delay_ms, strip_data_url_prefix, PasteStrategy, Platform,
};

#[test]
fn escaped_tokens_resolve_to_control_characters() {
    assert_eq!(resolve_delimiter(br"\n"), b"\n".to_vec());
    assert_eq!(resolve_delimiter(br"\t"), b"\t".to_vec());
    assert_eq!(resolve_delimiter(br"a\nb\tc"), b"a\nb\tc".to_vec());
    assert_eq!(resolve_delimiter(b" - "), b" - ".to_vec());
    assert_eq!(resolve_delimiter(br"\x"), br"\x".to_vec());
    assert_eq!(resolve_delimiter(b"\\"), b"\\".to_vec());
}

#[test]
fn joining_places_the_delimiter_between_neighbours() {
    let parts = vec![b"a".to_vec(), b"b".to_vec(), b"c".to_vec()];
    assert_eq!(join_with_delimiter(&parts, b"-"), b"a-b-c".to_vec());
    assert_eq!(join_with_delimiter(&vec![b"solo".to_vec()], b"-"), b"solo".to_vec());
    let empty: Vec<Vec<u8>> = Vec::new();
    assert_eq!(join_with_delimiter(&empty, b"-"), Vec::<u8>::new());
}

#[test]
fn bulk_payload_resolves_then_joins() {
    let parts = vec![b"one".to_vec(), b"two".to_vec()];
    assert_eq!(bulk_paste_text_and_simulate(&parts, br"\n"), b"one\ntwo".to_vec());
}

#[test]
fn the_fallback_chain_prefers_the_native_mechanism_where_it_exists() {
    assert_eq!(
        paste_strategies(Platform::MacOs),
        vec![PasteStrategy::NativeScript, PasteStrategy::KeyInjection]
    );
    assert_eq!(paste_strategies(Platform::Windows), vec![PasteStrategy::KeyInjection]);
    assert_eq!(paste_strategies(Platform::Other), vec![PasteStrategy::KeyInjection]);
}

#[test]
fn the_settle_delay_is_fixed() {
    assert_eq!(settle_delay_ms(), 120);
}

#[test]
fn the_data_url_prefix_is_stripped_only_when_present() {
    assert_eq!(strip_data_url_prefix(b"data:image/png;base64,QUJD"), b"QUJD");
    assert_eq!(strip_data_url_prefix(b"QUJD"), b"QUJD");
}

#[test]
fn image_payloads_decode_from_base64() {
    assert_eq!(prepare_image_payload(b"aGVsbG8="), Some(b"hello".to_vec()));
    assert_eq!(prepare_image_payload(b"data:image/png;base64,aGVsbG8="), Some(b"hello".to_vec()));
    assert_eq!(prepare_image_payload(b"!!!not base64!!!"), None);
}
