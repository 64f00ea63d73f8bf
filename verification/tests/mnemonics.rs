//! Mnemonic tests over a synthetic 2048-word table.
use gyu_bitcoin::mnemonic::{BitcoinMnemonic, MnemonicError};
use gyu_bitcoin::wordlist::Wordlist;

fn table() -> Wordlist {
    let mut words: Vec<String> = Vec::with_capacity(2048);
    for i in 0..2048 {
        words.push(format!("w{:04}", i));
    }
    Wordlist::new(words).unwrap()
}

#[test]
fn phrase_round_trip() {
    let wl = table();
    let entropies: Vec<Vec<u8>> = vec![
        vec![0u8; 16],
        vec![0xabu8; 32],
        (0u8..20).collect(),
        (100u8..128).collect(),
    ];
    for entropy in entropies {
        let m = BitcoinMnemonic { entropy: entropy.clone() };
        let phrase = m.to_phrase(&wl).unwrap();
        let parsed = BitcoinMnemonic::from_phrase(phrase.as_str(), &wl).unwrap();
        assert_eq!(parsed.entropy, entropy);
        assert!(BitcoinMnemonic::verify_phrase(phrase.as_str(), &wl));
    }
}

#[test]
fn zero_entropy_phrase_words() {
    let wl = table();
    let m = BitcoinMnemonic { entropy: vec![0u8; 16] };
    let phrase = m.to_phrase(&wl).unwrap();
    let words: Vec<&str> = phrase.split(' ').collect();
    assert_eq!(words.len(), 12);
    // all-zero entropy puts zeros in every data word
    for w in &words[..11] {
        assert_eq!(*w, "w0000");
    }
    // the final word carries the leading checksum bits of SHA-256(0^16)
}

#[test]
fn flipped_checksum_bit_is_rejected() {
    let wl = table();
    let m = BitcoinMnemonic { entropy: vec![0x5au8; 16] };
    let phrase = m.to_phrase(&wl).unwrap();
    let mut words: Vec<String> = phrase.split(' ').map(|w| w.to_string()).collect();
    assert_eq!(words.len(), 12);
    // flip the lowest bit of the final word's index: a checksum bit
    let last = words.last().unwrap().clone();
    let index: u32 = last[1..].parse().unwrap();
    words[11] = format!("w{:04}", index ^ 1);
    let altered = words.join(" ");
    assert!(matches!(
        BitcoinMnemonic::from_phrase(altered.as_str(), &wl),
        Err(MnemonicError::InvalidPhrase(_))
    ));
    assert!(!BitcoinMnemonic::verify_phrase(altered.as_str(), &wl));
}

#[test]
fn unknown_word_is_rejected() {
    let wl = table();
    let m = BitcoinMnemonic { entropy: vec![0u8; 16] };
    let phrase = m.to_phrase(&wl).unwrap();
    let altered = phrase.replacen("w0000", "zzzz", 1);
    assert!(matches!(
        BitcoinMnemonic::from_phrase(altered.as_str(), &wl),
        Err(MnemonicError::InvalidWord(_))
    ));
}

#[test]
fn wrong_word_count_is_rejected() {
    let wl = table();
    assert!(matches!(
        BitcoinMnemonic::from_phrase("w0000 w0001 w0002", &wl),
        Err(MnemonicError::InvalidWordCount(3))
    ));
}

#[test]
fn invalid_entropy_length_is_rejected() {
    let wl = table();
    let m = BitcoinMnemonic { entropy: vec![0u8; 17] };
    assert_eq!(m.to_phrase(&wl), Err(MnemonicError::InvalidEntropyLength(17)));
}

#[test]
fn entropy_from_counts() {
    let rand_bytes: Vec<u8> = (0u8..32).collect();
    for (count, len) in [(12u8, 16usize), (15, 20), (18, 24), (21, 28), (24, 32)] {
        let m = BitcoinMnemonic::new_with_count(&rand_bytes, count).unwrap();
        assert_eq!(m.entropy.len(), len);
        assert_eq!(m.entropy[..], rand_bytes[..len]);
    }
    assert!(matches!(
        BitcoinMnemonic::new_with_count(&rand_bytes, 13),
        Err(MnemonicError::InvalidWordCount(13))
    ));
    let m = BitcoinMnemonic::new(&rand_bytes).unwrap();
    assert_eq!(m.entropy.len(), 16);
}

#[test]
fn seed_is_64_bytes_and_password_sensitive() {
    let wl = table();
    let m = BitcoinMnemonic { entropy: vec![7u8; 16] };
    let seed_a = m.to_seed(None, &wl).unwrap();
    let seed_b = m.to_seed(Some("pass"), &wl).unwrap();
    assert_eq!(seed_a.len(), 64);
    assert_eq!(seed_b.len(), 64);
    assert_ne!(seed_a, seed_b);
    // the derived master key is well-formed
    let xprv = m.to_extended_private_key(None, &wl).unwrap();
    assert_eq!(xprv.depth, 0);
    let xpub = m.to_extended_public_key(None, &wl).unwrap();
    assert_eq!(xpub.depth, 0);
}
