use oxide_rs::model::fingerprint::{
    cache_file_name, fingerprint, fingerprint_len, hex, sha256, FINGERPRINT_BYTES,
};

fn digest(message: &[u8]) -> String {
    hex(&sha256(message))
}

#[test]
fn digests_of_known_messages() {
    assert_eq!(digest(b""), "e3b0c44298fc1c149afbf4c8996fb92427ae41e4649b934ca495991b7852b855");
    assert_eq!(digest(b"abc"), "ba7816bf8f01cfea414140de5dae2223b00361a396177a9cb410ff61f20015ad");
    assert_eq!(
        digest(b"abcdbcdecdefdefgefghfghighijhijkijkljklmklmnlmnomnopnopq"),
        "248d6a61d20638b8e5c026930c3e6039a33ce45964ff2167f6ecedd419db06c1"
    );
}

#[test]
fn digests_around_the_block_boundary() {
    let cases = [
        (55, "9f4390f8d30c2dd92ec9f095b65e2b9ae9b0a925a5258e241c9f1e910f734318"),
        (56, "b35439a4ac6f0948b6d6f9e3c6af0f5f590ce20f1bde7090ef7970686ec6738a"),
        (63, "7d3e74a05d7db15bce4ad9ec0658ea98e3f06eeecf16b4c6fff2da457ddc2f34"),
        (64, "ffe054fe7ae0cb6dc65c3af9b61d5209f439851db43d0ba5997337df154668eb"),
        (65, "635361c48bb9eab14198e76ea8ab7f1a41685d6ad62aa9146d301d4f17eb0ae0"),
    ];
    for (len, expected) in cases {
        assert_eq!(digest(&vec![b'a'; len]), expected, "for {} bytes", len);
    }
    let all: Vec<u8> = (0..768).map(|i| (i % 256) as u8).collect();
    assert_eq!(digest(&all), "f3a25aa93aa2fbba28d79260535bbd6a5eb0fc1c24a8b0f04e12b484c1dfe363");
    assert_eq!(sha256(&all).len(), 32);
}

#[test]
fn a_fingerprint_reads_the_head_and_the_size() {
    let head: Vec<u8> = (0..70000usize).map(|i| ((i * 7 + 3) % 256) as u8).collect();
    let expected = "8e3f2d9e50a4d9f4bea5566360ab25f0f271d4a5cb0373dd564e92231c039ada";
    assert_eq!(hex(&fingerprint(&head, 123456789)), expected);
    assert_eq!(hex(&fingerprint(&head[..65536], 123456789)), expected);
    assert_ne!(hex(&fingerprint(&head[..65535], 123456789)), expected);
    assert_ne!(hex(&fingerprint(&head, 123456790)), expected);
    assert_eq!(
        hex(&fingerprint(b"tiny", 4)),
        "640b290423372f01c150f988e99f5dfddb80da93451757c196b4b677d71efd56"
    );
    let mut input = b"tiny".to_vec();
    input.extend_from_slice(&4u64.to_be_bytes());
    assert_eq!(fingerprint(b"tiny", 4), sha256(&input));
}

#[test]
fn the_head_is_at_most_sixty_four_kibibytes() {
    assert_eq!(FINGERPRINT_BYTES, 64 * 1024);
    assert_eq!(fingerprint_len(0), 0);
    assert_eq!(fingerprint_len(1000), 1000);
    assert_eq!(fingerprint_len(65536), 65536);
    assert_eq!(fingerprint_len(65537), 65536);
    assert_eq!(fingerprint_len(usize::MAX), 65536);
}

#[test]
fn bytes_are_written_in_base_sixteen() {
    assert_eq!(hex(&[]), "");
    assert_eq!(hex(&[0x00, 0x0f, 0x10, 0xab, 0xff]), "000f10abff");
    assert_eq!(hex(&[0x9a]), "9a");
}

#[test]
fn a_cache_file_is_named_after_the_fingerprint() {
    assert_eq!(cache_file_name(&[0xde, 0xad, 0xbe, 0xef]), "deadbeef.json");
    assert_eq!(
        cache_file_name(&fingerprint(b"tiny", 4)),
        "640b290423372f01c150f988e99f5dfddb80da93451757c196b4b677d71efd56.json"
    );
}
