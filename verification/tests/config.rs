use command_runner::config::{
    config_key, join_nonce, load_config, load_stored_config, opened_config, save_stored_config,
    seal_config, split_nonce, ConfigFile, StoredConfig,
};

fn message<T>(text: &str) -> Result<T, String> {
    Err(text.to_string())
}

#[test]
fn a_key_is_32_bytes() {
    let bytes: Vec<u8> = (1..33).collect();
    assert_eq!(config_key(Some(bytes.clone())).unwrap().to_vec(), bytes);
    for len in [0, 1, 31, 33, 64] {
        assert_eq!(config_key(Some(vec![0; len])), message("invalid configuration key"));
    }
    assert_eq!(
        config_key(None),
        message("encrypted configuration key is missing; reinstall the application")
    );
}

#[test]
fn sealing_is_the_nonce_and_aes_256_gcm() {
    let sealed = seal_config(&[0; 32], &[0; 12], &[0; 16]).unwrap();
    let expected: Vec<u8> = vec![
        0, 0, 0, 0, 0, 0, 0, 0, 0, 0, 0, 0, //
        0xce, 0xa7, 0x40, 0x3d, 0x4d, 0x60, 0x6b, 0x6e, 0x07, 0x4e, 0xc5, 0xd3, 0xba, 0xf3, 0x9d,
        0x18, //
        0xd0, 0xd1, 0xc8, 0xa7, 0x99, 0x99, 0x6b, 0xf0, 0x26, 0x5b, 0x98, 0xb5, 0xd4, 0x8a, 0xb9,
        0x19,
    ];
    assert_eq!(sealed, expected);
    let empty = seal_config(&[0; 32], &[0; 12], &[]).unwrap();
    assert_eq!(empty.len(), 28);
    assert_eq!(
        empty[12..].to_vec(),
        vec![
            0x53, 0x0f, 0x8a, 0xfb, 0xc7, 0x45, 0x36, 0xb9, 0xa9, 0x63, 0xb4, 0xf1, 0xc4, 0xcb,
            0x73, 0x8b
        ]
    );
}

#[test]
fn what_was_saved_is_what_is_loaded() {
    let key = [9_u8; 32];
    for text in [&b""[..], &b"{}"[..], &[0xff; 1000][..]] {
        let bytes = save_stored_config(Ok(key), Ok(text.to_vec())).unwrap();
        assert_eq!(bytes.len(), text.len() + 28);
        let opened = load_stored_config(ConfigFile::Bytes(bytes), Ok(key));
        assert_eq!(opened, Ok(text.to_vec()));
    }
}

#[test]
fn every_save_has_its_own_nonce() {
    let key = [9_u8; 32];
    let first = save_stored_config(Ok(key), Ok(b"text".to_vec())).unwrap();
    let second = save_stored_config(Ok(key), Ok(b"text".to_vec())).unwrap();
    assert_ne!(first[..12].to_vec(), second[..12].to_vec());
    assert_ne!(first, second);
}

#[test]
fn nothing_that_was_tampered_with_opens() {
    let key = [9_u8; 32];
    let bytes = seal_config(&key, &[3; 12], b"settings").unwrap();
    for i in 0..bytes.len() {
        let mut changed = bytes.clone();
        changed[i] ^= 1;
        let opened = load_stored_config(ConfigFile::Bytes(changed), Ok(key));
        assert_eq!(opened, message("cannot decrypt configuration"));
    }
    for len in 13..bytes.len() {
        let opened = load_stored_config(ConfigFile::Bytes(bytes[..len].to_vec()), Ok(key));
        assert_eq!(opened, message("cannot decrypt configuration"));
    }
    let opened = load_stored_config(ConfigFile::Bytes(bytes), Ok([8; 32]));
    assert_eq!(opened, message("cannot decrypt configuration"));
}

#[test]
fn too_short_a_file_is_no_configuration() {
    for len in [0, 1, 12] {
        let opened = load_stored_config(ConfigFile::Bytes(vec![0; len]), Ok([0; 32]));
        assert_eq!(opened, message("invalid encrypted configuration"));
        let opened = load_stored_config(ConfigFile::Bytes(vec![0; len]), message("no key"));
        assert_eq!(opened, message("invalid encrypted configuration"));
    }
}

#[test]
fn loading_says_what_went_wrong_first() {
    assert_eq!(
        load_stored_config(ConfigFile::Missing, message("no key")),
        message("encrypted configuration is missing; reinstall the application")
    );
    assert_eq!(
        load_stored_config(ConfigFile::Unreadable("denied".to_string()), message("no key")),
        message("denied")
    );
    assert_eq!(
        load_stored_config(ConfigFile::Bytes(vec![0; 13]), message("no key")),
        message("no key")
    );
}

#[test]
fn saving_says_what_went_wrong_first() {
    assert_eq!(save_stored_config(message("no key"), message("no text")), message("no key"));
    assert_eq!(save_stored_config(message("no key"), Ok(vec![])), message("no key"));
    assert_eq!(save_stored_config(Ok([0; 32]), message("no text")), message("no text"));
}

#[test]
fn opening_comes_to_the_text_or_an_error() {
    assert_eq!(opened_config(Some(vec![1, 2])), Ok(vec![1, 2]));
    assert_eq!(opened_config(None), message("cannot decrypt configuration"));
}

#[test]
fn loading_the_configuration_gives_the_settings() {
    let config = StoredConfig {
        version: 1,
        admin_salt: "s".to_string(),
        admin_hash: "h".to_string(),
        settings: "settings",
    };
    assert_eq!(load_config(Ok(config)), Ok("settings"));
    assert_eq!(load_config::<u8>(message("missing")), message("missing"));
}

#[test]
fn the_nonce_stands_before_what_is_sealed() {
    let nonce = [1, 2, 3, 4, 5, 6, 7, 8, 9, 10, 11, 12];
    let bytes = join_nonce(&nonce, &[20, 21]);
    assert_eq!(bytes, vec![1, 2, 3, 4, 5, 6, 7, 8, 9, 10, 11, 12, 20, 21]);
    assert_eq!(split_nonce(&bytes), Ok((nonce, &[20, 21][..])));
    assert_eq!(split_nonce(&bytes[..12]), message("invalid encrypted configuration"));
}

#[test]
fn a_changed_byte_is_refused_where_tags_tell_texts_apart() {
    let (key, nonce) = ([9_u8; 32], [3_u8; 12]);
    let sealed = |text: &[u8]| seal_config(&key, &nonce, text).unwrap();
    let (one, other) = (sealed(b"settings"), sealed(b""));
    assert_ne!(one[one.len() - 16..], other[other.len() - 16..]);
    for i in 12..one.len() {
        for bit in 0..8 {
            let mut changed = one.clone();
            changed[i] ^= 1 << bit;
            let opened = load_stored_config(ConfigFile::Bytes(changed), Ok(key));
            assert_eq!(opened, message("cannot decrypt configuration"));
        }
    }
}
