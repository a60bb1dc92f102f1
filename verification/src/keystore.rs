//! The keystore of a group conversation: for each recipient, the keys that
//! recipient has used, oldest first. Keys are held encrypted; encryption and
//! decryption are the caller's ciphers, handed in as closures.
use crate::error::Error;
use vstd::prelude::*;

verus! {

/// One stored key: its position among the recipient's keys and its
/// encrypted bytes.
pub struct KeyEntry {
    id: usize,
    key: Vec<u8>,
}

impl KeyEntry {
    pub closed spec fn spec_id(&self) -> usize {
        self.id
    }

    pub closed spec fn spec_key(&self) -> Seq<u8> {
        self.key@
    }

    pub fn new(id: usize, key: Vec<u8>) -> (r: Self)
        ensures
            r.spec_id() == id,
            r.spec_key() == key@,
    {
        KeyEntry { id, key }
    }

    pub fn id(&self) -> (r: usize)
        ensures
            r == self.spec_id(),
    {
        self.id
    }

    pub fn key(&self) -> (r: &Vec<u8>)
        ensures
            r@ == self.spec_key(),
    {
        &self.key
    }
}

/// The keys of one recipient, by view.
pub type KeysView = Seq<Seq<u8>>;

/// Position of the recipient `did` in the store's entries, or -1.
pub open spec fn recipient_index_from(v: Seq<(Seq<char>, KeysView)>, did: Seq<char>, i: int) -> int
    decreases v.len() - i,
{
    if i < 0 || i >= v.len() {
        -1
    } else if v[i].0 == did {
        i
    } else {
        recipient_index_from(v, did, i + 1)
    }
}

pub open spec fn recipient_index(v: Seq<(Seq<char>, KeysView)>, did: Seq<char>) -> int {
    recipient_index_from(v, did, 0)
}

/// The keys of recipient `did`, if it has any entry.
pub open spec fn spec_keys(v: Seq<(Seq<char>, KeysView)>, did: Seq<char>) -> Option<KeysView> {
    if recipient_index(v, did) >= 0 {
        Some(v[recipient_index(v, did)].1)
    } else {
        None
    }
}

/// What storing the encrypted key `c` for `did` makes of the store, or the
/// error: a key that is already stored for the recipient is refused.
pub open spec fn spec_insert_key(v: Seq<(Seq<char>, KeysView)>, did: Seq<char>, c: Seq<u8>) -> Result<
    Seq<(Seq<char>, KeysView)>,
    Error,
> {
    let i = recipient_index(v, did);
    if i >= 0 {
        if v[i].1.contains(c) {
            Err(Error::PublicKeyInvalid)
        } else {
            Ok(v.update(i, (did, v[i].1.push(c))))
        }
    } else {
        Ok(v.push((did, seq![c])))
    }
}

/// The keystore of one conversation.
pub struct Keystore {
    conversation_id: u128,
    recipient_key: Vec<(String, Vec<KeyEntry>)>,
}

impl View for Keystore {
    type V = Seq<(Seq<char>, KeysView)>;

    closed spec fn view(&self) -> Seq<(Seq<char>, KeysView)> {
        Seq::new(
            self.recipient_key@.len(),
            |i: int|
                (
                    self.recipient_key@[i].0@,
                    Seq::new(self.recipient_key@[i].1@.len(), |j: int| self.recipient_key@[i].1@[j].key@),
                ),
        )
    }
}

impl Keystore {
    /// Every entry's id is its position, so the last key is the newest.
    pub closed spec fn inv(&self) -> bool {
        forall|i: int, j: int|
            0 <= i < self.recipient_key@.len() && 0 <= j < self.recipient_key@[i].1@.len() ==> #[trigger] self.recipient_key@[i].1@[j].id
                == j
    }

    pub closed spec fn spec_conversation_id(&self) -> u128 {
        self.conversation_id
    }

    pub fn new(conversation_id: u128) -> (r: Self)
        ensures
            r.inv(),
            r@ == Seq::<(Seq<char>, KeysView)>::empty(),
            r.spec_conversation_id() == conversation_id,
    {
        let r = Keystore { conversation_id, recipient_key: Vec::new() };
        assert(r@ =~= Seq::<(Seq<char>, KeysView)>::empty());
        r
    }

    pub fn conversation_id(&self) -> (r: u128)
        ensures
            r == self.spec_conversation_id(),
    {
        self.conversation_id
    }

    /// The id of the entry a key gets: its position among the recipient's keys.
    pub fn key_id(&self, did: &String, position: usize) -> (r: Option<usize>)
        requires
            self.inv(),
        ensures
            r == (if spec_keys(self@, did@) matches Some(keys) && position < keys.len() {
                Some(position)
            } else {
                None
            }),
    {
        let i = self.find(did);
        if i < self.recipient_key.len() && position < self.recipient_key[i].1.len() {
            Some(self.recipient_key[i].1[position].id)
        } else {
            None
        }
    }

    fn find(&self, did: &String) -> (i: usize)
        ensures
            i < self.recipient_key@.len() ==> self@[i as int].0 == did@,
            i <= self.recipient_key@.len(),
            i < self.recipient_key@.len() ==> i as int == recipient_index(self@, did@),
            i == self.recipient_key@.len() ==> recipient_index(self@, did@) == -1,
    {
        let mut i: usize = 0;
        while i < self.recipient_key.len()
            invariant
                i <= self.recipient_key@.len(),
                recipient_index(self@, did@) == recipient_index_from(self@, did@, i as int),
            decreases self.recipient_key@.len() - i,
        {
            if self.recipient_key[i].0 == *did {
                proof {
                    lemma_recipient_index_from(self@, did@, i as int);
                }
                return i;
            }
            i += 1;
        }
        i
    }

    fn keys_contain(list: &Vec<KeyEntry>, c: &Vec<u8>) -> (b: bool)
        ensures
            b == Seq::new(list@.len(), |j: int| list@[j].key@).contains(c@),
    {
        let ghost s = Seq::new(list@.len(), |j: int| list@[j].key@);
        let mut j: usize = 0;
        while j < list.len()
            invariant
                j <= list@.len(),
                s == Seq::new(list@.len(), |j: int| list@[j].key@),
                forall|k: int| 0 <= k < j ==> s[k] != c@,
            decreases list@.len() - j,
        {
            if bytes_eq(&list[j].key, c) {
                assert(s[j as int] == c@);
                return true;
            }
            j += 1;
        }
        false
    }

    /// Stores an already encrypted key for `recipient`.
    pub fn insert_encrypted(&mut self, recipient: &String, key: Vec<u8>) -> (r: Result<(), Error>)
        requires
            old(self).inv(),
        ensures
            final(self).inv(),
            final(self).spec_conversation_id() == old(self).spec_conversation_id(),
            match spec_insert_key(old(self)@, recipient@, key@) {
                Ok(v) => r is Ok && final(self)@ == v,
                Err(e) => r == Err::<(), Error>(e) && final(self)@ == old(self)@,
            },
    {
        let i = self.find(recipient);
        let ghost before = self@;
        if i < self.recipient_key.len() {
            if Self::keys_contain(&self.recipient_key[i].1, &key) {
                return Err(Error::PublicKeyInvalid);
            }
            let len = self.recipient_key[i].1.len();
            let ghost kv = key@;
            let entry = KeyEntry::new(len, key);
            let ghost old_list = self.recipient_key@[i as int].1@;
            self.recipient_key[i].1.push(entry);
            assert(self.recipient_key@[i as int].1@ == old_list.push(entry));
            assert(self@[i as int].1 =~= before[i as int].1.push(kv));
            assert(self@ =~= before.update(i as int, (recipient@, before[i as int].1.push(kv))));
            Ok(())
        } else {
            let ghost kv = key@;
            let mut list: Vec<KeyEntry> = Vec::new();
            list.push(KeyEntry::new(0, key));
            self.recipient_key.push((recipient.clone(), list));
            assert(self@[before.len() as int].1 =~= seq![kv]);
            assert(self@ =~= before.push((recipient@, seq![kv])));
            Ok(())
        }
    }

    /// Encrypts `key` with `encrypt` and stores it for `recipient`.
    pub fn insert<F: Fn(&[u8]) -> Result<Vec<u8>, Error>>(
        &mut self,
        recipient: &String,
        key: &[u8],
        encrypt: F,
    ) -> (r: Result<(), Error>)
        requires
            old(self).inv(),
            call_requires(encrypt, (key,)),
        ensures
            final(self).inv(),
            final(self).spec_conversation_id() == old(self).spec_conversation_id(),
            exists|c: Result<Vec<u8>, Error>|
                #[trigger] call_ensures(encrypt, (key,), c) && match c {
                    Err(e) => r == Err::<(), Error>(e) && final(self)@ == old(self)@,
                    Ok(bytes) => match spec_insert_key(old(self)@, recipient@, bytes@) {
                        Ok(v) => r is Ok && final(self)@ == v,
                        Err(e) => r == Err::<(), Error>(e) && final(self)@ == old(self)@,
                    },
                },
    {
        let c = encrypt(key);
        match c {
            Err(e) => Err(e),
            Ok(bytes) => self.insert_encrypted(recipient, bytes),
        }
    }

    /// Whether the store has keys for `recipient`.
    pub fn exist(&self, recipient: &String) -> (b: bool)
        ensures
            b == spec_keys(self@, recipient@) is Some,
    {
        self.find(recipient) < self.recipient_key.len()
    }

    /// The number of keys stored for `recipient`.
    pub fn count(&self, recipient: &String) -> (r: Result<usize, Error>)
        ensures
            match spec_keys(self@, recipient@) {
                Some(keys) => r == Ok::<usize, Error>(keys.len() as usize),
                None => r == Err::<usize, Error>(Error::PublicKeyDoesntExist),
            },
    {
        let i = self.find(recipient);
        if i < self.recipient_key.len() {
            Ok(self.recipient_key[i].1.len())
        } else {
            Err(Error::PublicKeyDoesntExist)
        }
    }

    /// The newest key of `recipient`, decrypted with `decrypt`.
    pub fn get_latest<F: Fn(&[u8]) -> Option<Vec<u8>>>(&self, recipient: &String, decrypt: F) -> (r: Result<
        Vec<u8>,
        Error,
    >)
        requires
            forall|x: &[u8]| call_requires(decrypt, (x,)),
        ensures
            match spec_keys(self@, recipient@) {
                Some(keys) if keys.len() > 0 => exists|x: &[u8], d: Option<Vec<u8>>|
                    x@ == keys.last() && #[trigger] call_ensures(decrypt, (x,), d) && match d {
                        Some(k) => r is Ok && r->Ok_0@ == k@,
                        None => r == Err::<Vec<u8>, Error>(Error::PublicKeyDoesntExist),
                    },
                _ => r == Err::<Vec<u8>, Error>(Error::PublicKeyDoesntExist),
            },
    {
        let i = self.find(recipient);
        if i >= self.recipient_key.len() {
            return Err(Error::PublicKeyDoesntExist);
        }
        let list = &self.recipient_key[i].1;
        if list.len() == 0 {
            return Err(Error::PublicKeyDoesntExist);
        }
        let last = &list[list.len() - 1];
        let x = last.key.as_slice();
        let d = decrypt(x);
        match d {
            Some(k) => Ok(k),
            None => Err(Error::PublicKeyDoesntExist),
        }
    }

    /// Every key of `recipient`, oldest first, that `decrypt` opens.
    pub fn get_all<F: Fn(&[u8]) -> Option<Vec<u8>>>(&self, recipient: &String, decrypt: F) -> (r: Result<
        Vec<Vec<u8>>,
        Error,
    >)
        requires
            forall|x: &[u8]| call_requires(decrypt, (x,)),
        ensures
            spec_keys(self@, recipient@) is None ==> r == Err::<Vec<Vec<u8>>, Error>(Error::PublicKeyDoesntExist),
            spec_keys(self@, recipient@) matches Some(keys) ==> r is Ok && exists|ds: Seq<Option<Seq<u8>>>|
                decrypted_all(decrypt, keys, ds) && bytes_seq_view(r->Ok_0@) == somes(ds),
            spec_keys(self@, recipient@) matches Some(keys) ==> r->Ok_0@.len() <= keys.len(),
    {
        let i = self.find(recipient);
        if i >= self.recipient_key.len() {
            return Err(Error::PublicKeyDoesntExist);
        }
        let list = &self.recipient_key[i].1;
        let ghost keys = self@[i as int].1;
        assert(spec_keys(self@, recipient@) == Some(keys));
        let mut out: Vec<Vec<u8>> = Vec::new();
        let ghost mut ds: Seq<Option<Seq<u8>>> = Seq::empty();
        let mut j: usize = 0;
        while j < list.len()
            invariant
                j <= list@.len(),
                keys == Seq::new(list@.len(), |j: int| list@[j].key@),
                spec_keys(self@, recipient@) == Some(keys),
                decrypted_all(decrypt, keys.subrange(0, j as int), ds),
                bytes_seq_view(out@) == somes(ds),
                forall|x: &[u8]| call_requires(decrypt, (x,)),
            decreases list@.len() - j,
        {
            let x = list[j].key.as_slice();
            let d = decrypt(x);
            assert(x@ == keys[j as int]);
            let ghost before = ds;
            proof {
                ds = ds.push(opt_bytes_view(d));
                assert(decrypted_as(decrypt, keys[j as int], opt_bytes_view(d)));
                assert(ds.drop_last() =~= before);
                assert(keys.subrange(0, j + 1).drop_last() =~= keys.subrange(0, j as int));
                lemma_decrypted_all_push(decrypt, keys.subrange(0, j as int), before, keys[j as int], opt_bytes_view(d));
                assert(keys.subrange(0, j as int).push(keys[j as int]) =~= keys.subrange(0, j + 1));
            }
            match d {
                Some(k) => {
                    let ghost ob = out@;
                    out.push(k);
                    assert(bytes_seq_view(out@) =~= bytes_seq_view(ob).push(k@));
                },
                None => {},
            }
            j += 1;
        }
        assert(keys.subrange(0, list@.len() as int) =~= keys);
        proof {
            lemma_somes_len(ds);
            assert(out@.len() == bytes_seq_view(out@).len());
        }
        Ok(out)
    }

    /// Opens `data` with the first of the recipient's keys (oldest first) for
    /// which `open` succeeds.
    pub fn try_decrypt<F: Fn(&[u8]) -> Option<Vec<u8>>, G: Fn(&[u8], &[u8]) -> Option<Vec<u8>>>(
        &self,
        recipient: &String,
        data: &[u8],
        decrypt: F,
        open: G,
    ) -> (r: Result<Vec<u8>, Error>)
        requires
            forall|x: &[u8]| call_requires(decrypt, (x,)),
            forall|x: &[u8], k: &[u8]| call_requires(open, (x, k)),
        ensures
            spec_keys(self@, recipient@) is None ==> r == Err::<Vec<u8>, Error>(Error::PublicKeyDoesntExist),
            spec_keys(self@, recipient@) matches Some(keys) ==> exists|ds: Seq<Option<Seq<u8>>>, os: Seq<Option<Seq<u8>>>|
                decrypted_all(decrypt, keys, ds) && tried_in_order(open, data@, somes(ds), os) && match r {
                    Ok(p) => os.len() > 0 && os.last() == Some(p@),
                    Err(e) => e == Error::DecryptionError && os.len() == somes(ds).len() && (os.len() == 0 || os.last() is None),
                },
    {
        let keys = match self.get_all(recipient, decrypt) {
            Ok(keys) => {
                assert(spec_keys(self@, recipient@) is Some);
                keys
            },
            Err(e) => {
                return Err(e);
            },
        };
        let ghost ks = bytes_seq_view(keys@);
        let ghost kk = spec_keys(self@, recipient@)->0;
        let ghost ds = choose|ds: Seq<Option<Seq<u8>>>| decrypted_all(decrypt, kk, ds) && ks == somes(ds);
        let ghost mut os: Seq<Option<Seq<u8>>> = Seq::empty();
        let mut j: usize = 0;
        while j < keys.len()
            invariant
                j <= keys@.len(),
                ks == bytes_seq_view(keys@),
                os.len() == j,
                tried_in_order(open, data@, ks, os),
                j > 0 ==> os.last() is None,
                spec_keys(self@, recipient@) == Some(kk),
                decrypted_all(decrypt, kk, ds),
                ks == somes(ds),
                forall|x: &[u8], k: &[u8]| call_requires(open, (x, k)),
            decreases keys@.len() - j,
        {
            let k = keys[j].as_slice();
            let d = open(data, k);
            let ghost before = os;
            proof {
                os = os.push(opt_bytes_view(d));
                assert(k@ == ks[j as int]);
                assert(opened_as(open, data@, ks[j as int], opt_bytes_view(d)));
                assert forall|t: int| 0 <= t < os.len() implies opened_as(open, data@, ks[t], #[trigger] os[t]) && (t
                    < os.len() - 1 ==> os[t] is None) by {
                    if t < before.len() {
                        assert(os[t] == before[t]);
                    }
                }
            }
            match d {
                Some(plain) => {
                    assert(os.last() == Some(plain@));
                    assert(tried_in_order(open, data@, ks, os));
                    assert(decrypted_all(decrypt, kk, ds) && tried_in_order(open, data@, somes(ds), os) && os.len() > 0
                        && os.last() == Some(plain@));
                    return Ok(plain);
                },
                None => {},
            }
            j += 1;
        }
        assert(os.len() == somes(ds).len());
        Err(Error::DecryptionError)
    }
}

/// The views of some byte vectors.
pub open spec fn bytes_seq_view(v: Seq<Vec<u8>>) -> Seq<Seq<u8>> {
    v.map_values(|b: Vec<u8>| b@)
}

pub open spec fn opt_bytes_view(o: Option<Vec<u8>>) -> Option<Seq<u8>> {
    match o {
        Some(b) => Some(b@),
        None => None,
    }
}

/// `decrypt`, given the stored key `key`, may give `d`.
pub open spec fn decrypted_as<F: Fn(&[u8]) -> Option<Vec<u8>>>(decrypt: F, key: Seq<u8>, d: Option<Seq<u8>>) -> bool {
    exists|x: &[u8], o: Option<Vec<u8>>| x@ == key && #[trigger] call_ensures(decrypt, (x,), o) && opt_bytes_view(o) == d
}

/// `ds` is what `decrypt` gave for each of `keys`, in order.
pub open spec fn decrypted_all<F: Fn(&[u8]) -> Option<Vec<u8>>>(decrypt: F, keys: KeysView, ds: Seq<Option<Seq<u8>>>) -> bool {
    ds.len() == keys.len() && forall|j: int| 0 <= j < keys.len() ==> decrypted_as(decrypt, keys[j], #[trigger] ds[j])
}

/// The present values of `ds`, in order.
pub open spec fn somes(ds: Seq<Option<Seq<u8>>>) -> Seq<Seq<u8>>
    decreases ds.len(),
{
    if ds.len() == 0 {
        Seq::empty()
    } else {
        let rest = somes(ds.drop_last());
        match ds.last() {
            Some(v) => rest.push(v),
            None => rest,
        }
    }
}

/// `open`, given `data` and the key `key`, may give `d`.
pub open spec fn opened_as<G: Fn(&[u8], &[u8]) -> Option<Vec<u8>>>(open: G, data: Seq<u8>, key: Seq<u8>, d: Option<Seq<u8>>) -> bool {
    exists|x: &[u8], k: &[u8], o: Option<Vec<u8>>|
        x@ == data && k@ == key && #[trigger] call_ensures(open, (x, k), o) && opt_bytes_view(o) == d
}

/// `os` is what `open` gave for the first `os.len()` of `keys`, each but
/// the last failing.
pub open spec fn tried_in_order<G: Fn(&[u8], &[u8]) -> Option<Vec<u8>>>(
    open: G,
    data: Seq<u8>,
    keys: Seq<Seq<u8>>,
    os: Seq<Option<Seq<u8>>>,
) -> bool {
    &&& os.len() <= keys.len()
    &&& forall|t: int| 0 <= t < os.len() ==> opened_as(open, data, keys[t], #[trigger] os[t]) && (t < os.len() - 1
        ==> os[t] is None)
}

proof fn lemma_somes_len(ds: Seq<Option<Seq<u8>>>)
    ensures
        somes(ds).len() <= ds.len(),
    decreases ds.len(),
{
    if ds.len() > 0 {
        lemma_somes_len(ds.drop_last());
    }
}

/// Storing a key for a recipient adds one to its count of keys (one key
/// when it had none); every other recipient keeps its count.
pub proof fn law_insert_then_count(v: Seq<(Seq<char>, KeysView)>, did: Seq<char>, c: Seq<u8>)
    requires
        spec_insert_key(v, did, c) is Ok,
    ensures
        spec_keys(spec_insert_key(v, did, c)->Ok_0, did) matches Some(ks) && ks.len() == match spec_keys(v, did) {
            Some(old_keys) => old_keys.len() + 1,
            None => 1,
        },
        forall|other: Seq<char>|
            other != did ==> #[trigger] spec_keys(spec_insert_key(v, did, c)->Ok_0, other) == spec_keys(v, other),
{
    law_insert_then_latest(v, did, c);
}

proof fn lemma_decrypted_all_push<F: Fn(&[u8]) -> Option<Vec<u8>>>(
    decrypt: F,
    keys: KeysView,
    ds: Seq<Option<Seq<u8>>>,
    k: Seq<u8>,
    d: Option<Seq<u8>>,
)
    requires
        decrypted_all(decrypt, keys, ds),
        decrypted_as(decrypt, k, d),
    ensures
        decrypted_all(decrypt, keys.push(k), ds.push(d)),
{
    assert forall|j: int| 0 <= j < keys.push(k).len() implies decrypted_as(decrypt, keys.push(k)[j], #[trigger] ds.push(d)[j]) by {
        if j < keys.len() {
            assert(keys.push(k)[j] == keys[j]);
            assert(ds.push(d)[j] == ds[j]);
        }
    }
}

proof fn lemma_recipient_index_from(v: Seq<(Seq<char>, KeysView)>, did: Seq<char>, i: int)
    requires
        0 <= i < v.len(),
        v[i].0 == did,
    ensures
        recipient_index_from(v, did, i) == i,
{
}

proof fn lemma_index_same_recipients(v: Seq<(Seq<char>, KeysView)>, w: Seq<(Seq<char>, KeysView)>, did: Seq<char>, i: int)
    requires
        v.len() == w.len(),
        forall|j: int| 0 <= j < v.len() ==> #[trigger] v[j].0 == w[j].0,
    ensures
        recipient_index_from(v, did, i) == recipient_index_from(w, did, i),
    decreases v.len() - i,
{
    if 0 <= i < v.len() && v[i].0 != did {
        lemma_index_same_recipients(v, w, did, i + 1);
    }
}

proof fn lemma_index_push(v: Seq<(Seq<char>, KeysView)>, e: (Seq<char>, KeysView), did: Seq<char>, i: int)
    requires
        0 <= i <= v.len(),
    ensures
        e.0 != did ==> recipient_index_from(v.push(e), did, i) == recipient_index_from(v, did, i),
        e.0 == did && recipient_index_from(v, did, i) == -1 ==> recipient_index_from(v.push(e), did, i) == v.len(),
    decreases v.len() - i,
{
    if i < v.len() {
        assert(v.push(e)[i] == v[i]);
        if v[i].0 != did {
            lemma_index_push(v, e, did, i + 1);
        }
    } else {
        assert(v.push(e)[i] == e);
        assert(recipient_index_from(v.push(e), did, i + 1) == -1);
    }
}

/// A key stored for a recipient becomes its newest key, after the keys it
/// had; every other recipient keeps its keys.
pub proof fn law_insert_then_latest(v: Seq<(Seq<char>, KeysView)>, did: Seq<char>, c: Seq<u8>)
    requires
        spec_insert_key(v, did, c) is Ok,
    ensures
        spec_keys(spec_insert_key(v, did, c)->Ok_0, did) == Some(
            match spec_keys(v, did) {
                Some(ks) => ks.push(c),
                None => seq![c],
            },
        ),
        forall|other: Seq<char>|
            other != did ==> #[trigger] spec_keys(spec_insert_key(v, did, c)->Ok_0, other) == spec_keys(v, other),
{
    let r = spec_insert_key(v, did, c)->Ok_0;
    let i = recipient_index(v, did);
    lemma_recipient_index_bounds(v, did, 0);
    if i >= 0 {
        assert forall|j: int| 0 <= j < v.len() implies #[trigger] v[j].0 == r[j].0 by {}
        lemma_index_same_recipients(v, r, did, 0);
        assert forall|other: Seq<char>| other != did implies #[trigger] spec_keys(r, other) == spec_keys(v, other) by {
            lemma_index_same_recipients(v, r, other, 0);
            lemma_recipient_index_bounds(v, other, 0);
            let k = recipient_index(v, other);
            if k >= 0 {
                assert(v[k].0 == other);
                assert(k != i);
            }
        }
    } else {
        lemma_index_push(v, (did, seq![c]), did, 0);
        assert forall|other: Seq<char>| other != did implies #[trigger] spec_keys(r, other) == spec_keys(v, other) by {
            lemma_index_push(v, (did, seq![c]), other, 0);
            lemma_recipient_index_bounds(v, other, 0);
            let k = recipient_index(v, other);
            if k >= 0 {
                assert(r[k] == v[k]);
            }
        }
    }
}

proof fn lemma_recipient_index_bounds(v: Seq<(Seq<char>, KeysView)>, did: Seq<char>, i: int)
    requires
        0 <= i,
    ensures
        recipient_index_from(v, did, i) == -1 || (i <= recipient_index_from(v, did, i) < v.len() && v[recipient_index_from(
            v,
            did,
            i,
        )].0 == did),
    decreases v.len() - i,
{
    if i < v.len() && v[i].0 != did {
        lemma_recipient_index_bounds(v, did, i + 1);
    }
}

/// Byte-wise equality of two byte vectors.
pub fn bytes_eq(a: &Vec<u8>, b: &Vec<u8>) -> (r: bool)
    ensures
        r == (a@ == b@),
{
    if a.len() != b.len() {
        return false;
    }
    let mut i: usize = 0;
    while i < a.len()
        invariant
            i <= a@.len(),
            a@.len() == b@.len(),
            forall|k: int| 0 <= k < i ==> a@[k] == b@[k],
        decreases a@.len() - i,
    {
        if a[i] != b[i] {
            return false;
        }
        i += 1;
    }
    assert(a@ =~= b@);
    true
}

} // verus!
