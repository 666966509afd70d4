use activity_queue::error::Error;
use activity_queue::signing::signing_key;

#[test]
fn missing_key_is_reported() {
    assert_eq!(signing_key(None).err(), Some(Error::MissingPrivateKey));
}

#[test]
fn garbage_key_is_invalid() {
    assert_eq!(signing_key(Some("not a key")).err(), Some(Error::InvalidPrivateKey));
    assert_eq!(signing_key(Some("")).err(), Some(Error::InvalidPrivateKey));
}

#[test]
fn generated_key_parses() {
    let rsa = openssl::rsa::Rsa::generate(2048).unwrap();
    let pem = String::from_utf8(rsa.private_key_to_pem().unwrap()).unwrap();
    let key = signing_key(Some(&pem)).unwrap();
    assert_eq!(key.bits(), 2048);
}

#[test]
fn error_messages_read_as_stated() {
    assert_eq!(Error::QueueClosed.message(), "activity queue is closed");
    assert_eq!(
        Error::MissingPrivateKey.message(),
        "actor does not contain a private key for signing"
    );
}

#[test]
fn encrypted_key_does_not_prompt() {
    let rsa = openssl::rsa::Rsa::generate(1024).unwrap();
    let pem = rsa
        .private_key_to_pem_passphrase(openssl::symm::Cipher::aes_128_cbc(), b"secret")
        .unwrap();
    let pem = String::from_utf8(pem).unwrap();
    assert_eq!(signing_key(Some(&pem)).err(), Some(Error::InvalidPrivateKey));
}

#[test]
fn error_messages_are_distinct() {
    let all = [
        Error::MissingPrivateKey,
        Error::InvalidPrivateKey,
        Error::QueueClosed,
        Error::WorkerPanicked,
        Error::StatsStillShared,
    ];
    for (i, a) in all.iter().enumerate() {
        for b in &all[i + 1..] {
            assert_ne!(a.message(), b.message());
        }
    }
}
