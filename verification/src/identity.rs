//! Keys, contacts and the identifiers derived from them.

use rand::RngCore;
use sha2::Digest;
use vstd::prelude::*;
use vstd::utf8::encode_utf8;

use crate::order::{kept_in_order, picks, sort_stably, stable_sort_of, Ranked};
use crate::text::{
    comes_before, concat, copy, decimal, decimal_text, earlier, earlier_total, earlier_trans, hex,
    hex_injective, hex_text, same, views,
};

verus! {

/// Whether two keys are the same.
pub fn same_key(a: &[u8; 32], b: &[u8; 32]) -> (r: bool)
    ensures
        r == (a@ == b@),
{
    let mut i: usize = 0;
    while i < 32
        invariant
            i <= 32,
            forall|k: int| 0 <= k < i ==> a@[k] == b@[k],
        decreases 32 - i,
    {
        if a[i] != b[i] {
            return false;
        }
        i = i + 1;
    }
    assert(a@ =~= b@);
    true
}

/// Whether `a` comes before `b` in the order of their bytes.
pub open spec fn bytes_before(a: Seq<u8>, b: Seq<u8>) -> bool
    decreases a.len(),
{
    b.len() > 0 && (a.len() == 0 || a[0] < b[0] || (a[0] == b[0] && bytes_before(
        a.drop_first(),
        b.drop_first(),
    )))
}

proof fn bytes_before_at(a: Seq<u8>, b: Seq<u8>, i: int)
    requires
        0 <= i <= a.len(),
        i <= b.len(),
        forall|k: int| 0 <= k < i ==> a[k] == b[k],
    ensures
        bytes_before(a, b) == bytes_before(a.skip(i), b.skip(i)),
    decreases i,
{
    if i > 0 {
        let x = a.drop_first();
        let y = b.drop_first();
        assert forall|k: int| 0 <= k < i - 1 implies x[k] == y[k] by {
            assert(x[k] == a[k + 1] && y[k] == b[k + 1]);
        }
        bytes_before_at(x, y, i - 1);
        assert(x.skip(i - 1) =~= a.skip(i));
        assert(y.skip(i - 1) =~= b.skip(i));
    } else {
        assert(a.skip(0) =~= a);
        assert(b.skip(0) =~= b);
    }
}

/// Of two byte strings one comes first, or they are the same.
pub proof fn bytes_before_total(a: Seq<u8>, b: Seq<u8>)
    ensures
        bytes_before(a, b) || bytes_before(b, a) || a == b,
        !(bytes_before(a, b) && bytes_before(b, a)),
    decreases a.len(),
{
    if a.len() > 0 && b.len() > 0 {
        bytes_before_total(a.drop_first(), b.drop_first());
        if a[0] == b[0] && a.drop_first() == b.drop_first() {
            assert(a =~= seq![a[0]] + a.drop_first());
            assert(b =~= seq![b[0]] + b.drop_first());
        }
    } else if a.len() == 0 && b.len() == 0 {
        assert(a =~= b);
    }
}

fn key_before(a: &[u8; 32], b: &[u8; 32]) -> (r: bool)
    ensures
        r == bytes_before(a@, b@),
{
    let mut i: usize = 0;
    while i < 32 && a[i] == b[i]
        invariant
            i <= 32,
            forall|k: int| 0 <= k < i ==> a@[k] == b@[k],
        decreases 32 - i,
    {
        i = i + 1;
    }
    proof {
        bytes_before_at(a@, b@, i as int);
    }
    if i == 32 {
        return false;
    }
    assert(a@.skip(i as int)[0] == a@[i as int]);
    assert(b@.skip(i as int)[0] == b@[i as int]);
    a[i] < b[i]
}

/// The public key as lower-case hexadecimal, the name contacts are stored under.
pub fn pubkey_hex(pubkey: &[u8; 32]) -> (r: String)
    ensures
        r@ == hex(pubkey@),
        r@.len() == 64,
{
    let r = hex_text(pubkey, 32);
    assert(pubkey@.take(32) =~= pubkey@);
    r
}

/// No two public keys are stored under the same name.
pub proof fn pubkey_hex_is_collision_free(a: [u8; 32], b: [u8; 32])
    requires
        hex(a@) == hex(b@),
    ensures
        a@ == b@,
{
    hex_injective(a@, b@);
}

/// The SHA-256 digest of some bytes.
pub uninterp spec fn sha256(data: Seq<u8>) -> Seq<u8>;

/// Calls `sha2::Sha256::digest`, which hashes its argument from the initial state;
/// the digest depends on the bytes alone.
#[verifier::external_body]
fn sha256_digest(data: &[u8]) -> (r: [u8; 32])
    ensures
        r@ == sha256(data@),
{
    sha2::Sha256::digest(data).into()
}

/// The digest by which a picture is told from another.
pub fn avatar_sha256(picture: &[u8]) -> (r: [u8; 32])
    ensures
        r@ == sha256(picture@),
{
    sha256_digest(picture)
}

/// What is hashed into the identifier that two peers share: the lesser key, the
/// greater key, and a tag.
pub open spec fn contact_id_input(a: Seq<u8>, b: Seq<u8>) -> Seq<u8> {
    let keys = if bytes_before(a, b) {
        a + b
    } else {
        b + a
    };
    keys + encode_utf8("kokoroo-contact-id"@)
}

/// The identifier of a contact: the first eight bytes of the hash, in hexadecimal.
pub open spec fn contact_id(a: Seq<u8>, b: Seq<u8>) -> Seq<char> {
    hex(sha256(contact_id_input(a, b)).take(8))
}

fn push_bytes(out: &mut Vec<u8>, more: &[u8])
    ensures
        final(out)@ == old(out)@ + more@,
{
    let ghost start = out@;
    let mut i: usize = 0;
    while i < more.len()
        invariant
            i <= more@.len(),
            out@ == start + more@.take(i as int),
        decreases more@.len() - i,
    {
        out.push(more[i]);
        i = i + 1;
        assert(out@ =~= start + more@.take(i as int));
    }
    assert(more@.take(i as int) =~= more@);
}

/// Derives the identifier of a contact from two public keys.
pub fn derive_contact_id(pubkey_a: &[u8; 32], pubkey_b: &[u8; 32]) -> (r: String)
    ensures
        r@ == contact_id(pubkey_a@, pubkey_b@),
        r@.len() == 16,
{
    let mut data: Vec<u8> = Vec::new();
    if key_before(pubkey_a, pubkey_b) {
        push_bytes(&mut data, pubkey_a);
        push_bytes(&mut data, pubkey_b);
        assert(data@ =~= pubkey_a@ + pubkey_b@);
    } else {
        push_bytes(&mut data, pubkey_b);
        push_bytes(&mut data, pubkey_a);
        assert(data@ =~= pubkey_b@ + pubkey_a@);
    }
    push_bytes(&mut data, "kokoroo-contact-id".as_bytes());
    let digest = sha256_digest(data.as_slice());
    hex_text(&digest, 8)
}

/// Both peers derive the same identifier, whichever key each of them puts first.
pub proof fn contact_id_is_shared(a: [u8; 32], b: [u8; 32])
    ensures
        contact_id(a@, b@) == contact_id(b@, a@),
{
    bytes_before_total(a@, b@);
}

/// A secret key and the public key that belongs to it.
pub struct KeyPair {
    pub secret: [u8; 32],
    pub pubkey: [u8; 32],
}

/// The X25519 public key of a secret.
pub uninterp spec fn x25519_public(secret: Seq<u8>) -> Seq<u8>;

/// Calls `x25519_dalek::PublicKey::from` on the `StaticSecret` with these bytes; the
/// public key depends on them alone.
#[verifier::external_body]
fn derive_public(secret: &[u8; 32]) -> (r: [u8; 32])
    ensures
        r@ == x25519_public(secret@),
{
    x25519_dalek::PublicKey::from(&x25519_dalek::StaticSecret::from(*secret)).to_bytes()
}

/// Calls `fill_bytes` of `rand::thread_rng()`. Nothing is said of the bytes: they are
/// drawn at random.
#[verifier::external_body]
fn random_bytes() -> (r: [u8; 32]) {
    let mut secret = [0u8; 32];
    rand::thread_rng().fill_bytes(&mut secret);
    secret
}

/// Why a key file cannot be read: it has this many bytes, and not sixty-four.
#[derive(Debug)]
pub struct CorruptKeyFile {
    pub len: usize,
}

/// The content of a key file: the secret key, then the public key.
pub open spec fn key_file(secret: Seq<u8>, pubkey: Seq<u8>) -> Seq<u8> {
    secret + pubkey
}

fn key_at(data: &[u8], from: usize) -> (r: [u8; 32])
    requires
        from + 32 <= data@.len(),
    ensures
        r@ == data@.subrange(from as int, from + 32),
{
    let mut r: [u8; 32] = [0u8;32];
    let mut i: usize = 0;
    while i < 32
        invariant
            i <= 32,
            from + 32 <= data.len(),
            forall|k: int| 0 <= k < i ==> r@[k] == data@[from + k],
        decreases 32 - i,
    {
        r[i] = data[from + i];
        i = i + 1;
    }
    assert(r@ =~= data@.subrange(from as int, from + 32));
    r
}

impl KeyPair {
    /// The key pair of a secret.
    pub fn of_secret(secret: [u8; 32]) -> (r: Self)
        ensures
            r.secret@ == secret@,
            r.pubkey@ == x25519_public(secret@),
    {
        let pubkey = derive_public(&secret);
        KeyPair { secret, pubkey }
    }

    /// Draws a new key pair.
    pub fn generate() -> (r: Self)
        ensures
            r.pubkey@ == x25519_public(r.secret@),
    {
        KeyPair::of_secret(random_bytes())
    }

    /// What is written to the key file.
    pub fn to_bytes(&self) -> (r: Vec<u8>)
        ensures
            r@ == key_file(self.secret@, self.pubkey@),
    {
        let mut out: Vec<u8> = Vec::new();
        push_bytes(&mut out, &self.secret);
        push_bytes(&mut out, &self.pubkey);
        assert(out@ =~= key_file(self.secret@, self.pubkey@));
        out
    }

    /// Reads a key file.
    pub fn from_bytes(data: &[u8]) -> (r: Result<Self, CorruptKeyFile>)
        ensures
            r is Ok <==> data@.len() == 64,
            r matches Ok(k) ==> k.secret@ == data@.take(32) && k.pubkey@ == data@.skip(32),
            r matches Err(e) ==> e.len == data@.len(),
    {
        if data.len() != 64 {
            return Err(CorruptKeyFile { len: data.len() });
        }
        let secret = key_at(data, 0);
        let pubkey = key_at(data, 32);
        proof {
            assert(data@.subrange(0, 32) =~= data@.take(32));
            assert(data@.subrange(32, 64) =~= data@.skip(32));
        }
        Ok(KeyPair { secret, pubkey })
    }
}

/// Reading back a key file gives the keys that were written to it.
pub proof fn key_file_round_trip(secret: [u8; 32], pubkey: [u8; 32])
    ensures
        key_file(secret@, pubkey@).len() == 64,
        key_file(secret@, pubkey@).take(32) == secret@,
        key_file(secret@, pubkey@).skip(32) == pubkey@,
{
    assert(key_file(secret@, pubkey@).take(32) =~= secret@);
    assert(key_file(secret@, pubkey@).skip(32) =~= pubkey@);
}

/// Who the user is: the keys, and the short form of the public key that is shown.
pub struct Identity {
    pub secret: [u8; 32],
    pub pubkey: [u8; 32],
    pub fingerprint: String,
}

impl Identity {
    /// The keys of the user: those in the key file, or new ones where there is no file yet.
    /// New keys are to be written as `KeyPair::to_bytes` gives them. A key file is one that
    /// `KeyPair::from_bytes` can read; no keys are made in place of a corrupt one.
    pub fn load_or_create(stored: Option<&Vec<u8>>) -> (r: KeyPair)
        requires
            stored matches Some(data) ==> data@.len() == 64,
        ensures
            stored matches Some(data) ==> data@ == key_file(r.secret@, r.pubkey@),
            stored is None ==> r.pubkey@ == x25519_public(r.secret@),
    {
        match stored {
            Some(data) => {
                assert(data@.take(32) + data@.skip(32) =~= data@);
                KeyPair::from_bytes(data.as_slice()).unwrap()
            },
            None => KeyPair::generate(),
        }
    }

    /// The identity of a key pair whose public key has this fingerprint.
    pub fn new(keys: KeyPair, fingerprint: String) -> (r: Self)
        ensures
            r.secret@ == keys.secret@,
            r.pubkey@ == keys.pubkey@,
            r.fingerprint@ == fingerprint@,
    {
        Identity { secret: keys.secret, pubkey: keys.pubkey, fingerprint }
    }
}

/// A peer that was connected to before.
pub struct Contact {
    pub fingerprint: String,
    pub pubkey: [u8; 32],
    pub nickname: String,
    pub contact_id: String,
    pub first_seen: String,
    pub last_seen: String,
    pub last_address: String,
    pub last_port: String,
    pub call_count: u64,
}

/// A contact as plain mathematical data.
#[verifier::ext_equal]
pub struct ContactData {
    pub fingerprint: Seq<char>,
    pub pubkey: Seq<u8>,
    pub nickname: Seq<char>,
    pub contact_id: Seq<char>,
    pub first_seen: Seq<char>,
    pub last_seen: Seq<char>,
    pub last_address: Seq<char>,
    pub last_port: Seq<char>,
    pub call_count: u64,
}

impl View for Contact {
    type V = ContactData;

    open spec fn view(&self) -> ContactData {
        ContactData {
            fingerprint: self.fingerprint@,
            pubkey: self.pubkey@,
            nickname: self.nickname@,
            contact_id: self.contact_id@,
            first_seen: self.first_seen@,
            last_seen: self.last_seen@,
            last_address: self.last_address@,
            last_port: self.last_port@,
            call_count: self.call_count,
        }
    }
}

impl Clone for Contact {
    fn clone(&self) -> (r: Self)
        ensures
            r@ == self@,
    {
        Contact {
            fingerprint: copy(self.fingerprint.as_str()),
            pubkey: self.pubkey,
            nickname: copy(self.nickname.as_str()),
            contact_id: copy(self.contact_id.as_str()),
            first_seen: copy(self.first_seen.as_str()),
            last_seen: copy(self.last_seen.as_str()),
            last_address: copy(self.last_address.as_str()),
            last_port: copy(self.last_port.as_str()),
            call_count: self.call_count,
        }
    }
}

/// The file a contact is stored in.
pub open spec fn contact_file(pubkey: Seq<u8>) -> Seq<char> {
    hex(pubkey) + ".json"@
}

/// The file an older release stored a contact in.
pub open spec fn old_contact_file(fingerprint: Seq<char>) -> Seq<char> {
    fingerprint + ".json"@
}

/// The name of the file a contact is stored in.
pub fn contact_file_name(pubkey: &[u8; 32]) -> (r: String)
    ensures
        r@ == contact_file(pubkey@),
{
    concat(pubkey_hex(pubkey).as_str(), ".json")
}

/// The name of the file an older release stored a contact in.
pub fn old_contact_file_name(fingerprint: &str) -> (r: String)
    ensures
        r@ == old_contact_file(fingerprint@),
{
    concat(fingerprint, ".json")
}

/// Two contacts with different public keys are stored in different files.
pub proof fn contact_files_are_distinct(a: [u8; 32], b: [u8; 32])
    requires
        contact_file(a@) == contact_file(b@),
    ensures
        a@ == b@,
{
    let x = contact_file(a@);
    assert(hex(a@) =~= x.take(64));
    assert(hex(b@) =~= contact_file(b@).take(64));
    hex_injective(a@, b@);
}

/// The file that storing a contact makes obsolete, if an older release stored it
/// under another name.
pub fn stale_contact_file(contact: &Contact, old_exists: bool) -> (r: Option<String>)
    ensures
        r is Some <==> old_exists && old_contact_file(contact.fingerprint@) != contact_file(
            contact.pubkey@,
        ),
        r matches Some(f) ==> f@ == old_contact_file(contact.fingerprint@),
{
    let new_name = contact_file_name(&contact.pubkey);
    let old_name = old_contact_file_name(contact.fingerprint.as_str());
    if old_exists && !same(old_name.as_str(), new_name.as_str()) {
        Some(old_name)
    } else {
        None
    }
}

/// The file to read a contact from: the one under its public key if it exists, else
/// the one an older release wrote, else none.
pub fn contact_file_to_load(
    pubkey: &[u8; 32],
    fingerprint: &str,
    new_exists: bool,
    old_exists: bool,
) -> (r: Option<String>)
    ensures
        r is Some <==> new_exists || old_exists,
        r matches Some(f) ==> f@ == (if new_exists {
            contact_file(pubkey@)
        } else {
            old_contact_file(fingerprint@)
        }),
{
    if new_exists {
        Some(contact_file_name(pubkey))
    } else if old_exists {
        Some(old_contact_file_name(fingerprint))
    } else {
        None
    }
}

/// The contacts with a given nickname, as a predicate.
pub open spec fn nicknamed(nickname: Seq<char>) -> spec_fn(ContactData) -> bool {
    |c: ContactData| c.nickname == nickname
}

/// All contacts that use a nickname. An empty nickname finds none.
pub fn find_contacts_by_nickname(contacts: &Vec<Contact>, nickname: &str) -> (r: Vec<Contact>)
    ensures
        nickname@.len() == 0 ==> r@.len() == 0,
        nickname@.len() > 0 ==> views(r@) == views(contacts@).filter(nicknamed(nickname@)),
{
    let mut found: Vec<Contact> = Vec::new();
    if nickname.is_empty() {
        return found;
    }
    let mut i: usize = 0;
    proof {
        reveal(Seq::filter);
        assert(views(contacts@).take(0) =~= Seq::<ContactData>::empty());
        assert(views(found@) =~= Seq::<ContactData>::empty());
    }
    while i < contacts.len()
        invariant
            i <= contacts@.len(),
            views(found@) == views(contacts@).take(i as int).filter(nicknamed(nickname@)),
        decreases contacts@.len() - i,
    {
        let ghost before = found@;
        if same(contacts[i].nickname.as_str(), nickname) {
            found.push(contacts[i].clone());
        }
        proof {
            reveal(Seq::filter);
            let now = views(contacts@).take(i + 1);
            assert(now.drop_last() =~= views(contacts@).take(i as int));
            assert(now.last() == contacts@[i as int]@);
            if contacts@[i as int].nickname@ == nickname@ {
                assert(views(found@) =~= views(before).push(contacts@[i as int]@));
            }
        }
        i = i + 1;
    }
    assert(views(contacts@).take(i as int) =~= views(contacts@));
    found
}

impl Ranked for Contact {
    /// The contact seen last comes first.
    open spec fn precedes(self, other: Self) -> bool {
        earlier(other.last_seen@, self.last_seen@)
    }

    proof fn weak_order(a: Self, b: Self, c: Self) {
        let x = a.last_seen@;
        let y = b.last_seen@;
        let z = c.last_seen@;
        earlier_total(x, x);
        earlier_total(x, y);
        earlier_total(y, z);
        earlier_total(x, z);
        if earlier(z, x) && !earlier(y, x) && !earlier(z, y) {
            if earlier(x, y) {
                earlier_trans(z, x, y);
            }
        }
    }

    fn goes_before(&self, other: &Self) -> (r: bool) {
        comes_before(other.last_seen.as_str(), self.last_seen.as_str())
    }
}

/// Puts the contacts read from disk in order: the one seen last comes first.
pub fn load_all_contacts(read: Vec<Contact>) -> (r: Vec<Contact>)
    ensures
        stable_sort_of(read@, r@),
{
    let mut contacts = read;
    sort_stably(&mut contacts);
    contacts
}

/// A time in seconds since the start of 1970, as contacts store it.
pub fn now_timestamp(secs: u64) -> (r: String)
    ensures
        r@ == decimal(secs as nat),
{
    decimal_text(secs)
}

/// Of two byte strings that agree up to a position the first is the one with the lesser byte
/// there, or the one that ends there.
pub proof fn bytes_before_is(a: Seq<u8>, b: Seq<u8>, i: int)
    requires
        0 <= i <= a.len(),
        i <= b.len(),
        forall|k: int| 0 <= k < i ==> a[k] == b[k],
        i == a.len() || i == b.len() || a[i] != b[i],
    ensures
        i == b.len() ==> !bytes_before(a, b),
        i < b.len() && i == a.len() ==> bytes_before(a, b),
        i < b.len() && i < a.len() ==> (bytes_before(a, b) <==> a[i] < b[i]),
{
    bytes_before_at(a, b, i);
}

/// What is hashed into the identifier of two peers is the lesser key, then the greater, then
/// the tag; the identifier is the first eight bytes of the hash in hexadecimal.
pub proof fn the_lesser_key_comes_first(a: Seq<u8>, b: Seq<u8>)
    requires
        bytes_before(a, b),
    ensures
        contact_id_input(a, b) == a + b + encode_utf8("kokoroo-contact-id"@),
        contact_id_input(b, a) == a + b + encode_utf8("kokoroo-contact-id"@),
        contact_id(a, b) == hex(sha256(a + b + encode_utf8("kokoroo-contact-id"@)).take(8)),
        contact_id(b, a) == hex(sha256(a + b + encode_utf8("kokoroo-contact-id"@)).take(8)),
{
    bytes_before_total(a, b);
}

/// A contact is stored under its key in hexadecimal, and an older release stored it under its
/// fingerprint.
pub proof fn contact_files_are_named_by_key(pubkey: Seq<u8>, fingerprint: Seq<char>)
    ensures
        contact_file(pubkey).len() == 2 * pubkey.len() + 5,
        contact_file(pubkey).take(2 * pubkey.len() as int) == hex(pubkey),
        contact_file(pubkey).skip(2 * pubkey.len() as int) == ".json"@,
        old_contact_file(fingerprint).len() == fingerprint.len() + 5,
        old_contact_file(fingerprint).take(fingerprint.len() as int) == fingerprint,
        old_contact_file(fingerprint).skip(fingerprint.len() as int) == ".json"@,
{
    reveal_strlit(".json");
    let json = ".json"@;
    assert((hex(pubkey) + json).take(2 * pubkey.len() as int) =~= hex(pubkey));
    assert((hex(pubkey) + json).skip(2 * pubkey.len() as int) =~= json);
    assert((fingerprint + json).take(fingerprint.len() as int) =~= fingerprint);
    assert((fingerprint + json).skip(fingerprint.len() as int) =~= json);
}

/// The contacts with a nickname are all that have it, each as it is and in their order. The
/// answer holds the position of each.
pub proof fn contacts_are_found_by_nickname(contacts: Seq<ContactData>, nickname: Seq<char>) -> (src:
    Seq<int>)
    ensures
        picks(src, contacts.len() as int),
        src.len() == contacts.filter(nicknamed(nickname)).len(),
        forall|i: int|
            0 <= i < src.len() ==> contacts.filter(nicknamed(nickname))[i]
                == contacts[#[trigger] src[i]] && contacts[src[i]].nickname == nickname,
        forall|k: int|
            0 <= k < contacts.len() && (#[trigger] contacts[k]).nickname == nickname
                ==> src.contains(k),
{
    kept_in_order(contacts, nicknamed(nickname))
}

/// Contacts are listed with the one seen last first.
pub proof fn contacts_seen_last_come_first(contacts: Seq<Contact>, listed: Seq<Contact>)
    requires
        stable_sort_of(contacts, listed),
    ensures
        listed.to_multiset() == contacts.to_multiset(),
        forall|i: int, j: int|
            0 <= i < j < listed.len() ==> !earlier(
                (#[trigger] listed[i]).last_seen@,
                (#[trigger] listed[j]).last_seen@,
            ),
{
}

} // verus!
