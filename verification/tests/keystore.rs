use warp_ipfs::error::Error;
use warp_ipfs::keystore::{KeyEntry, Keystore};

/// A stand-in for the owner's ECDH cipher: XOR with the owner's DID bytes,
/// behind a 4-byte tag of the owner so that a foreign key is refused.
fn seal(owner: &str, data: &[u8]) -> Vec<u8> {
    let pad = owner.as_bytes();
    let mut out: Vec<u8> = pad[..4].to_vec();
    for (i, b) in data.iter().enumerate() {
        out.push(b ^ pad[i % pad.len()]);
    }
    out
}

fn unseal(owner: &str, data: &[u8]) -> Option<Vec<u8>> {
    let pad = owner.as_bytes();
    if data.len() < 4 || data[..4] != pad[..4] {
        return None;
    }
    Some(data[4..].iter().enumerate().map(|(i, b)| b ^ pad[i % pad.len()]).collect())
}

/// A stand-in for the symmetric cipher: the key's first byte as a tag, then
/// the plaintext XORed with the key.
fn direct_encrypt(plain: &[u8], key: &[u8]) -> Vec<u8> {
    let mut out = vec![key[0]];
    for (i, b) in plain.iter().enumerate() {
        out.push(b ^ key[i % key.len()]);
    }
    out
}

fn direct_decrypt(data: &[u8], key: &[u8]) -> Option<Vec<u8>> {
    if data.is_empty() || data[0] != key[0] {
        return None;
    }
    Some(data[1..].iter().enumerate().map(|(i, b)| b ^ key[i % key.len()]).collect())
}

fn key_bytes(seed: u8) -> [u8; 32] {
    let mut k = [0u8; 32];
    for (i, b) in k.iter_mut().enumerate() {
        *b = seed.wrapping_mul(31).wrapping_add(i as u8).wrapping_add(1);
    }
    k
}

const KEYPAIR: &str = "did:key:z6MkeyPairOwner0000000000000000000000000000";
const RECIPIENT: &str = "did:key:z6MkRecipient00000000000000000000000000000";

#[test]
fn keystore_test() {
    let mut keystore = Keystore::new(0);
    let keypair = KEYPAIR.to_string();
    let recipient = RECIPIENT.to_string();
    assert_ne!(keypair, recipient);

    let key = key_bytes(1);
    keystore
        .insert(&recipient, &key, |k: &[u8]| Ok(seal(&keypair, k)))
        .expect("inserted");

    let stored_key = keystore.get_latest(&recipient, |c: &[u8]| unseal(&keypair, c)).expect("stored");
    assert_eq!(stored_key, key.to_vec());
}

#[test]
fn keystore_get_latest() {
    let mut keystore = Keystore::new(0);
    let keypair = KEYPAIR.to_string();
    let recipient = RECIPIENT.to_string();
    assert_ne!(keypair, recipient);

    let key_1 = key_bytes(1);
    let key_2 = key_bytes(2);
    keystore.insert(&recipient, &key_1, |k: &[u8]| Ok(seal(&keypair, k))).expect("inserted");
    keystore.insert(&recipient, &key_2, |k: &[u8]| Ok(seal(&keypair, k))).expect("inserted");

    let latest_key = keystore.get_latest(&recipient, |c: &[u8]| unseal(&keypair, c)).expect("stored");
    assert_eq!(latest_key, key_2.to_vec());
}

#[test]
fn keystore_try_decrypt() {
    let mut keystore = Keystore::new(0);
    let keypair = KEYPAIR.to_string();
    let recipients: Vec<String> = (0..10).map(|i| format!("did:key:z6MkRecipient{:032}", i)).collect();

    for (r, recipient) in recipients.iter().enumerate() {
        for n in 0..recipients.len() {
            let key = key_bytes((r * 10 + n) as u8);
            keystore.insert(recipient, &key, |k: &[u8]| Ok(seal(&keypair, k))).expect("inserted");
        }
    }

    let plaintext = b"message";
    let chosen_recipient = &recipients[7];
    let keys = keystore.get_all(chosen_recipient, |c: &[u8]| unseal(&keypair, c)).expect("keys");
    assert_eq!(keys.len(), 10);
    let chosen_key = &keys[4];

    let cipher_message = direct_encrypt(plaintext, chosen_key);
    let decrypted_message = keystore
        .try_decrypt(
            chosen_recipient,
            &cipher_message,
            |c: &[u8]| unseal(&keypair, c),
            |d: &[u8], k: &[u8]| direct_decrypt(d, k),
        )
        .expect("decrypted");
    assert_eq!(decrypted_message, plaintext.to_vec());
}

#[test]
fn keystore_refuses_a_stored_key_twice() {
    let mut keystore = Keystore::new(7);
    let recipient = RECIPIENT.to_string();
    let key = key_bytes(3);
    keystore.insert_encrypted(&recipient, key.to_vec()).expect("first");
    assert_eq!(keystore.insert_encrypted(&recipient, key.to_vec()), Err(Error::PublicKeyInvalid));
    assert_eq!(keystore.count(&recipient), Ok(1));
    assert_eq!(keystore.conversation_id(), 7);
}

#[test]
fn keystore_unknown_recipient() {
    let keystore = Keystore::new(0);
    let recipient = RECIPIENT.to_string();
    assert!(!keystore.exist(&recipient));
    assert_eq!(keystore.count(&recipient), Err(Error::PublicKeyDoesntExist));
    assert_eq!(keystore.get_latest(&recipient, |c: &[u8]| Some(c.to_vec())), Err(Error::PublicKeyDoesntExist));
    assert_eq!(keystore.get_all(&recipient, |c: &[u8]| Some(c.to_vec())), Err(Error::PublicKeyDoesntExist));
    assert_eq!(
        keystore.try_decrypt(&recipient, b"x", |c: &[u8]| Some(c.to_vec()), |_: &[u8], _: &[u8]| None),
        Err(Error::PublicKeyDoesntExist)
    );
}

#[test]
fn keystore_entry_ids_are_positions() {
    let mut keystore = Keystore::new(0);
    let recipient = RECIPIENT.to_string();
    for n in 0..3u8 {
        keystore.insert_encrypted(&recipient, key_bytes(n).to_vec()).expect("inserted");
    }
    assert_eq!(keystore.key_id(&recipient, 2), Some(2));
    assert_eq!(keystore.key_id(&recipient, 3), None);
    let entry = KeyEntry::new(5, vec![1, 2, 3]);
    assert_eq!(entry.id(), 5);
    assert_eq!(entry.key(), &vec![1, 2, 3]);
}

#[test]
fn keystore_try_decrypt_without_matching_key() {
    let mut keystore = Keystore::new(0);
    let keypair = KEYPAIR.to_string();
    let recipient = RECIPIENT.to_string();
    keystore.insert(&recipient, &key_bytes(9), |k: &[u8]| Ok(seal(&keypair, k))).expect("inserted");
    let foreign = direct_encrypt(b"message", &key_bytes(10));
    assert_eq!(
        keystore.try_decrypt(&recipient, &foreign, |c: &[u8]| unseal(&keypair, c), |d: &[u8], k: &[u8]| direct_decrypt(d, k)),
        Err(Error::DecryptionError)
    );
}
