//! The identity itself and every operation on its encrypted store: creating
//! and loading an identity, wrapping its master key under a password, and
//! the contact, message, file and avatar tables sealed under that key.

use vstd::prelude::*;
use vstd::string::StringExecFns;
use vstd::utf8::{valid_utf8, decode_utf8, encode_utf8};
use crate::crypto::{
    CryptoError, MASTER_KEY_LEN, SALT_LEN, IV_LEN, AES_TAG_LEN, AEAD_PLAINTEXT_MAX, decrypt_spec,
    unwrap_spec, encrypt_data, decrypt_data, encrypt_master_key, decrypt_master_key,
    generate_master_key, generate_keypair, generate_uuid, sign_with_keypair, wipe_bytes,
    keypair_parses, sign_of, opt_slice_view,
};
use crate::key_value_table::StoreError;
use crate::store::{
    Store, ContactRow, ContactRowV, FileRow, FileRowV, AvatarRow, AvatarRowV, MsgRow, MsgRowV,
    Conversation, views_of, opt_bytes_view, has_conv, conv_rows, conv_index, convs_distinct,
    lemma_conv_at, clone_opt_bytes, clone_contact_row, clone_file_row, clone_avatar_row,
    contacts_without, files_without_owner, files_owned_only, avatars_without, convs_without,
    lemma_convs_without_distinct, lemma_convs_without_absent, lemma_convs_without_remove,
    convs_preserved_except, first_contact_avatar, contact_refs, avatars_referenced,
};
use crate::util::clone_bytes;
use crate::util::{
    bytes_to_string, bytes_eq, u64_to_be, u64_from_be, be_bytes_u64, lemma_u64_be_round_trip,
};
use vstd::slice::slice_to_vec;
use vstd::pervasive::VecAdditionalExecFns;
use vstd::std_specs::vec::vec_index_mut;

verus! {

/// The byte a boolean is sealed as: two arbitrary values far from 0 and 1.
pub open spec fn byte_of_bool(b: bool) -> u8 {
    if b {
        75
    } else {
        30
    }
}

/// The boolean a decrypted byte spells, if any: any byte other than the two
/// chosen encodings marks corruption.
pub open spec fn bool_of_byte(b: u8) -> Option<bool> {
    if b == 75 {
        Some(true)
    } else if b == 30 {
        Some(false)
    } else {
        None
    }
}

/// Encode a boolean as its storage byte.
pub fn bool_to_byte(b: bool) -> (r: u8)
    ensures
        r == byte_of_bool(b),
{
    if b {
        75
    } else {
        30
    }
}

/// Decode a storage byte back to a boolean; any other value is corruption.
pub fn byte_to_bool(b: u8) -> (r: Result<bool, ()>)
    ensures
        (r is Ok) == (bool_of_byte(b) is Some),
        r matches Ok(v) ==> bool_of_byte(b) == Some(v),
{
    if b == 75 {
        Ok(true)
    } else if b == 30 {
        Ok(false)
    } else {
        Err(())
    }
}

/// The path of the database file inside an identity's folder.
pub fn get_database_path(database_folder: &str) -> (r: String)
    ensures
        r@ == database_folder@ + "/AIRA.db"@,
{
    let mut path = database_folder.to_owned();
    path.append("/AIRA.db");
    path
}

/// How loading or re-keying an identity fails: the password is wrong, the
/// stored bytes cannot be what the layout demands, or a metadata row is
/// missing.
#[derive(Debug, Clone, Copy, PartialEq, Eq, Structural)]
pub enum LoadError {
    BadPassword,
    Corrupted,
    Storage,
}

impl LoadError {
    /// The user-visible wording of this failure.
    pub fn message(&self) -> (r: String)
        ensures
            *self == LoadError::BadPassword ==> r@ == "Bad password"@,
            *self == LoadError::Corrupted ==> r@ == "Database corrupted"@,
            *self == LoadError::Storage ==> r@ == "Storage error"@,
    {
        match self {
            LoadError::BadPassword => String::from_str("Bad password"),
            LoadError::Corrupted => String::from_str("Database corrupted"),
            LoadError::Storage => String::from_str("Storage error"),
        }
    }
}

/// One message of a conversation.
#[derive(Debug, Clone)]
pub struct Message {
    pub outgoing: bool,
    pub timestamp: u64,
    pub data: Vec<u8>,
}

#[verifier::ext_equal]
pub ghost struct MessageV {
    pub outgoing: bool,
    pub timestamp: u64,
    pub data: Seq<u8>,
}

impl View for Message {
    type V = MessageV;

    open spec fn view(&self) -> MessageV {
        MessageV { outgoing: self.outgoing, timestamp: self.timestamp, data: self.data@ }
    }
}

/// One contact, as the caller sees it after decryption.
pub struct Contact {
    pub uuid: Vec<u8>,
    pub public_key: Vec<u8>,
    pub name: String,
    pub avatar: Option<Vec<u8>>,
    pub verified: bool,
    pub seen: bool,
}

#[verifier::ext_equal]
pub ghost struct ContactV {
    pub uuid: Seq<u8>,
    pub public_key: Seq<u8>,
    pub name: Seq<char>,
    pub avatar: Option<Seq<u8>>,
    pub verified: bool,
    pub seen: bool,
}

impl View for Contact {
    type V = ContactV;

    open spec fn view(&self) -> ContactV {
        ContactV {
            uuid: self.uuid@,
            public_key: self.public_key@,
            name: self.name@,
            avatar: opt_bytes_view(self.avatar),
            verified: self.verified,
            seen: self.seen,
        }
    }
}

/// A loaded identity: its keypair split in halves, the master key that
/// seals every stored field, and the padding setting.
pub struct Identity {
    pub name: String,
    pub secret_key: Vec<u8>,
    pub public_key: Vec<u8>,
    pub master_key: Vec<u8>,
    pub use_padding: bool,
}

#[verifier::ext_equal]
pub ghost struct IdentityV {
    pub name: Seq<char>,
    pub secret_key: Seq<u8>,
    pub public_key: Seq<u8>,
    pub master_key: Seq<u8>,
    pub use_padding: bool,
}

impl View for Identity {
    type V = IdentityV;

    open spec fn view(&self) -> IdentityV {
        IdentityV {
            name: self.name@,
            secret_key: self.secret_key@,
            public_key: self.public_key@,
            master_key: self.master_key@,
            use_padding: self.use_padding,
        }
    }
}

impl Identity {
    /// Key and keypair halves have their fixed sizes.
    pub open spec fn wf(&self) -> bool {
        &&& self.master_key@.len() == MASTER_KEY_LEN
        &&& self.secret_key@.len() == 32
        &&& self.public_key@.len() == 32
    }

    /// Sign a message under this identity's keypair. Yields nothing exactly
    /// when the stored keypair bytes do not parse as an Ed25519 keypair.
    pub fn sign(&self, input: &[u8]) -> (r: Option<Vec<u8>>)
        requires
            self.wf(),
        ensures
            (r is Some) == keypair_parses(self.secret_key@ + self.public_key@),
            r matches Some(s) ==> s@ == sign_of(self.secret_key@ + self.public_key@, input@)
                && s@.len() == 64,
    {
        let mut keypair = self.secret_key.clone();
        keypair.extend_from_slice(self.public_key.as_slice());
        proof {
            assert(keypair@ =~= self.secret_key@ + self.public_key@);
        }
        sign_with_keypair(keypair.as_slice(), input)
    }

    /// This identity's 32 public key bytes.
    pub fn get_public_key(&self) -> (r: Vec<u8>)
        ensures
            r@ == self.public_key@,
    {
        let r = self.public_key.clone();
        proof {
            assert(r@ =~= self.public_key@);
        }
        r
    }

    /// Overwrite the master key and the signing secret with zero bytes.
    /// Nothing else of the identity changes.
    pub fn zeroize(&mut self)
        ensures
            final(self).master_key@.len() == old(self).master_key@.len(),
            forall|i: int|
                0 <= i < final(self).master_key@.len() ==> final(self).master_key@[i] == 0u8,
            final(self).secret_key@.len() == old(self).secret_key@.len(),
            forall|i: int|
                0 <= i < final(self).secret_key@.len() ==> final(self).secret_key@[i] == 0u8,
            final(self).name == old(self).name,
            final(self).public_key == old(self).public_key,
            final(self).use_padding == old(self).use_padding,
            old(self).wf() ==> final(self).wf(),
    {
        wipe_bytes(&mut self.master_key);
        wipe_bytes(&mut self.secret_key);
    }

    /// Seal one field under the master key.
    fn seal_field(&self, data: &[u8]) -> (r: Vec<u8>)
        requires
            self.wf(),
            data@.len() <= AEAD_PLAINTEXT_MAX,
        ensures
            decrypt_spec(r@, self.master_key@) == Ok::<Seq<u8>, CryptoError>(data@),
            r@.len() == data@.len() + IV_LEN + AES_TAG_LEN,
    {
        match encrypt_data(data, self.master_key.as_slice()) {
            Ok(sealed) => sealed,
            Err(_) => {
                proof {
                    assert(false);
                }
                Vec::new()
            },
        }
    }

    /// Seal one boolean under the master key.
    fn seal_bool(&self, b: bool) -> (r: Vec<u8>)
        requires
            self.wf(),
        ensures
            decrypt_spec(r@, self.master_key@) == Ok::<Seq<u8>, CryptoError>(
                seq![byte_of_bool(b)],
            ),
    {
        let mut plain: Vec<u8> = Vec::new();
        plain.push(bool_to_byte(b));
        proof {
            assert(plain@ =~= seq![byte_of_bool(b)]);
        }
        self.seal_field(plain.as_slice())
    }

    /// Whether the identity in a store is password protected: its stored
    /// master-key field is not the raw 32-byte key.
    pub fn is_protected(store: &Store) -> (r: Result<bool, LoadError>)
        requires
            store.wf(),
        ensures
            (r is Ok) == store@.main.contains_key("master_key"@),
            r matches Ok(b) ==> b == (store@.main["master_key"@].len() != MASTER_KEY_LEN),
            r matches Err(e) ==> e == LoadError::Storage,
    {
        match store.main.get("master_key") {
            Ok(field) => Ok(field.len() != MASTER_KEY_LEN),
            Err(_) => Err(LoadError::Storage),
        }
    }

    /// The stored identity name, which is kept in plaintext.
    pub fn get_identity_name(store: &Store) -> (r: Result<String, LoadError>)
        requires
            store.wf(),
        ensures
            (r is Ok) == (store@.main.contains_key("name"@) && valid_utf8(store@.main["name"@])),
            r matches Ok(s) ==> s@ == decode_utf8(store@.main["name"@]),
            r matches Err(e) ==> e == (if !store@.main.contains_key("name"@) {
                LoadError::Storage
            } else {
                LoadError::Corrupted
            }),
    {
        match store.main.get("name") {
            Ok(bytes) => match bytes_to_string(bytes) {
                Some(s) => Ok(s),
                None => Err(LoadError::Corrupted),
            },
            Err(_) => Err(LoadError::Storage),
        }
    }

    /// Store the identity's own avatar, kept as raw bytes in the metadata
    /// table.
    pub fn set_identity_avatar(store: &mut Store, avatar: &[u8]) -> (r: Result<usize, StoreError>)
        requires
            old(store).wf(),
        ensures
            final(store).wf(),
            final(store)@.main == old(store)@.main.insert("avatar"@, avatar@),
            final(store)@.contacts == old(store)@.contacts,
            final(store)@.files == old(store)@.files,
            final(store)@.avatars == old(store)@.avatars,
            final(store)@.conversations == old(store)@.conversations,
            r == Ok::<usize, StoreError>(1),
    {
        store.main.upsert("avatar", avatar)
    }

    /// Remove the identity's own avatar.
    pub fn remove_identity_avatar(store: &mut Store) -> (r: Result<usize, StoreError>)
        requires
            old(store).wf(),
        ensures
            final(store).wf(),
            final(store)@.main == old(store)@.main.remove("avatar"@),
            final(store)@.contacts == old(store)@.contacts,
            final(store)@.files == old(store)@.files,
            final(store)@.avatars == old(store)@.avatars,
            final(store)@.conversations == old(store)@.conversations,
            r is Ok,
            old(store)@.main.contains_key("avatar"@) ==> r == Ok::<usize, StoreError>(1),
            !old(store)@.main.contains_key("avatar"@) ==> r == Ok::<usize, StoreError>(0),
    {
        store.main.del("avatar")
    }

    /// Read the identity's own avatar.
    pub fn get_identity_avatar(store: &Store) -> (r: Result<Vec<u8>, StoreError>)
        requires
            store.wf(),
        ensures
            (r is Ok) == store@.main.contains_key("avatar"@),
            r matches Ok(v) ==> v@ == store@.main["avatar"@],
            r matches Err(e) ==> e == StoreError::NotFound,
    {
        store.main.get("avatar")
    }

    /// Rename the identity, in the store and in this loaded copy.
    pub fn change_name(&mut self, store: &mut Store, new_name: String) -> (r: Result<
        usize,
        StoreError,
    >)
        requires
            old(store).wf(),
        ensures
            final(store).wf(),
            r is Ok,
            old(store)@.main.contains_key("name"@) ==> final(store)@.main == old(store)@.main.insert("name"@, encode_utf8(new_name@)),
            final(self).name == new_name,
            final(self).secret_key == old(self).secret_key,
            final(self).public_key == old(self).public_key,
            final(self).master_key == old(self).master_key,
            final(self).use_padding == old(self).use_padding,
            final(store)@.contacts == old(store)@.contacts,
            final(store)@.files == old(store)@.files,
            final(store)@.avatars == old(store)@.avatars,
            final(store)@.conversations == old(store)@.conversations,
            !old(store)@.main.contains_key("name"@) ==> final(store)@.main == old(store)@.main,
    {
        let result = store.main.update("name", new_name.as_str().as_bytes());
        self.name = new_name;
        result
    }

    /// Flip the padding setting, in the store and in this loaded copy.
    pub fn set_use_padding(&mut self, store: &mut Store, use_padding: bool) -> (r: Result<
        usize,
        StoreError,
    >)
        requires
            old(self).wf(),
            old(store).wf(),
        ensures
            final(self).wf(),
            final(store).wf(),
            r is Ok,
            final(self).use_padding == use_padding,
            final(self).name == old(self).name,
            final(self).secret_key == old(self).secret_key,
            final(self).public_key == old(self).public_key,
            final(self).master_key == old(self).master_key,
            final(store)@.contacts == old(store)@.contacts,
            final(store)@.files == old(store)@.files,
            final(store)@.avatars == old(store)@.avatars,
            final(store)@.conversations == old(store)@.conversations,
            old(store)@.main.contains_key("use_padding"@) ==> final(store)@.main == old(store)@.main.insert("use_padding"@, final(store)@.main["use_padding"@]) && decrypt_spec(
                final(store)@.main["use_padding"@],
                old(self).master_key@,
            ) == Ok::<Seq<u8>, CryptoError>(seq![byte_of_bool(use_padding)]),
            !old(store)@.main.contains_key("use_padding"@) ==> final(store)@.main == old(store)@.main,
    {
        self.use_padding = use_padding;
        let sealed = self.seal_bool(use_padding);
        store.main.update("use_padding", sealed.as_slice())
    }
}

proof fn lemma_meta_keys_distinct()
    ensures
        "name"@ != "keypair"@,
        "name"@ != "salt"@,
        "name"@ != "master_key"@,
        "name"@ != "use_padding"@,
        "name"@ != "avatar"@,
        "keypair"@ != "salt"@,
        "keypair"@ != "master_key"@,
        "keypair"@ != "use_padding"@,
        "keypair"@ != "avatar"@,
        "salt"@ != "master_key"@,
        "salt"@ != "use_padding"@,
        "salt"@ != "avatar"@,
        "master_key"@ != "use_padding"@,
        "master_key"@ != "avatar"@,
        "use_padding"@ != "avatar"@,
{
    broadcast use vstd::string::group_string_axioms;

    reveal_strlit("name");
    reveal_strlit("keypair");
    reveal_strlit("salt");
    reveal_strlit("master_key");
    reveal_strlit("use_padding");
    reveal_strlit("avatar");
    assert("name"@.len() == 4);
    assert("keypair"@.len() == 7);
    assert("salt"@.len() == 4);
    assert("master_key"@.len() == 10);
    assert("use_padding"@.len() == 11);
    assert("avatar"@.len() == 6);
    assert("name"@[0] == 'n');
    assert("salt"@[0] == 's');
}

/// The master key a store yields for a password: the raw 32 bytes when no
/// password is given, the scrypt-and-AEAD unwrapping when one is. A wrong
/// password shows as `BadPassword`, impossible layouts as `Corrupted`, and
/// a missing metadata row as `Storage`.
pub open spec fn unwrap_stored(m: Map<Seq<char>, Seq<u8>>, password: Option<Seq<u8>>) -> Result<
    Seq<u8>,
    LoadError,
> {
    if !(m.contains_key("name"@) && m.contains_key("keypair"@) && m.contains_key("salt"@)
        && m.contains_key("master_key"@) && m.contains_key("use_padding"@)) {
        Err(LoadError::Storage)
    } else {
        match password {
            None => {
                if m["master_key"@].len() == MASTER_KEY_LEN {
                    Ok(m["master_key"@])
                } else {
                    Err(LoadError::Corrupted)
                }
            },
            Some(pw) => {
                match unwrap_spec(m["master_key"@], pw, m["salt"@]) {
                    Ok(mk) => Ok(mk),
                    Err(CryptoError::DecryptionFailed) => Err(LoadError::BadPassword),
                    Err(CryptoError::InvalidLength) => Err(LoadError::Corrupted),
                }
            },
        }
    }
}

/// What loading an identity from a store yields: the name must be valid
/// UTF-8, the master key must unwrap under the given password, and the
/// keypair and padding flag must open under it.
pub open spec fn load_spec(m: Map<Seq<char>, Seq<u8>>, password: Option<Seq<u8>>) -> Result<
    IdentityV,
    LoadError,
> {
    if !(m.contains_key("name"@) && m.contains_key("keypair"@) && m.contains_key("salt"@)
        && m.contains_key("master_key"@) && m.contains_key("use_padding"@)) {
        Err(LoadError::Storage)
    } else if !valid_utf8(m["name"@]) {
        Err(LoadError::Corrupted)
    } else {
        match unwrap_stored(m, password) {
            Err(e) => Err(e),
            Ok(mk) => match decrypt_spec(m["keypair"@], mk) {
                Err(_) => Err(LoadError::Corrupted),
                Ok(kp) => {
                    if kp.len() != 64 {
                        Err(LoadError::Corrupted)
                    } else {
                        match decrypt_spec(m["use_padding"@], mk) {
                            Err(_) => Err(LoadError::Corrupted),
                            Ok(up) => {
                                if up.len() != 1 || bool_of_byte(up[0]) is None {
                                    Err(LoadError::Corrupted)
                                } else {
                                    Ok(
                                        IdentityV {
                                            name: decode_utf8(m["name"@]),
                                            secret_key: kp.subrange(0, 32),
                                            public_key: kp.subrange(32, 64),
                                            master_key: mk,
                                            use_padding: bool_of_byte(up[0]).unwrap(),
                                        },
                                    )
                                }
                            },
                        }
                    }
                },
            },
        }
    }
}

impl Identity {
    /// Load the identity a store holds, unwrapping its master key with the
    /// given password and opening the keypair and settings under it.
    pub fn load_identity(store: &Store, password: Option<&[u8]>) -> (r: Result<
        Identity,
        LoadError,
    >)
        requires
            store.wf(),
        ensures
            (r is Ok) == (load_spec(store@.main, opt_slice_view(password)) is Ok),
            r matches Ok(id) ==> load_spec(store@.main, opt_slice_view(password)) == Ok::<
                IdentityV,
                LoadError,
            >(id@) && id.wf(),
            r matches Err(e) ==> load_spec(store@.main, opt_slice_view(password)) == Err::<
                IdentityV,
                LoadError,
            >(e),
    {
        let name_bytes = match store.main.get("name") {
            Ok(v) => v,
            Err(_) => {
                return Err(LoadError::Storage);
            },
        };
        let keypair_ct = match store.main.get("keypair") {
            Ok(v) => v,
            Err(_) => {
                return Err(LoadError::Storage);
            },
        };
        let salt = match store.main.get("salt") {
            Ok(v) => v,
            Err(_) => {
                return Err(LoadError::Storage);
            },
        };
        let master_key_field = match store.main.get("master_key") {
            Ok(v) => v,
            Err(_) => {
                return Err(LoadError::Storage);
            },
        };
        let use_padding_ct = match store.main.get("use_padding") {
            Ok(v) => v,
            Err(_) => {
                return Err(LoadError::Storage);
            },
        };
        let name = match bytes_to_string(name_bytes) {
            Some(s) => s,
            None => {
                return Err(LoadError::Corrupted);
            },
        };
        let master_key = match password {
            None => {
                if master_key_field.len() == MASTER_KEY_LEN {
                    master_key_field
                } else {
                    return Err(LoadError::Corrupted);
                }
            },
            Some(pw) => {
                match decrypt_master_key(master_key_field.as_slice(), pw, salt.as_slice()) {
                    Ok(mk) => mk,
                    Err(CryptoError::DecryptionFailed) => {
                        return Err(LoadError::BadPassword);
                    },
                    Err(CryptoError::InvalidLength) => {
                        return Err(LoadError::Corrupted);
                    },
                }
            },
        };
        let keypair = match decrypt_data(keypair_ct.as_slice(), master_key.as_slice()) {
            Ok(kp) => kp,
            Err(_) => {
                return Err(LoadError::Corrupted);
            },
        };
        if keypair.len() != 64 {
            return Err(LoadError::Corrupted);
        }
        let use_padding_bytes = match decrypt_data(
            use_padding_ct.as_slice(),
            master_key.as_slice(),
        ) {
            Ok(v) => v,
            Err(_) => {
                return Err(LoadError::Corrupted);
            },
        };
        if use_padding_bytes.len() != 1 {
            return Err(LoadError::Corrupted);
        }
        let use_padding = match byte_to_bool(use_padding_bytes[0]) {
            Ok(b) => b,
            Err(_) => {
                return Err(LoadError::Corrupted);
            },
        };
        let secret_key = slice_to_vec(&keypair.as_slice()[0..32]);
        let public_key = slice_to_vec(&keypair.as_slice()[32..64]);
        Ok(Identity { name, secret_key, public_key, master_key, use_padding })
    }

    /// Set up a fresh identity in an empty store: a new keypair and master
    /// key, the key wrapped under the password when one is given and stored
    /// raw beside an all-zero salt when none is. Fails when the store
    /// already holds an identity. Loading the store afterwards with the
    /// same password yields exactly this identity.
    pub fn create_identidy(store: &mut Store, name: &str, password: Option<&[u8]>) -> (r: Result<
        Identity,
        StoreError,
    >)
        requires
            old(store).wf(),
        ensures
            final(store).wf(),
            final(store)@.contacts == old(store)@.contacts,
            final(store)@.files == old(store)@.files,
            final(store)@.avatars == old(store)@.avatars,
            final(store)@.conversations == old(store)@.conversations,
            (r is Ok) == !(old(store)@.main.contains_key("name"@) || old(store)@.main.contains_key("keypair"@) || old(store)@.main.contains_key("salt"@) || old(store)@.main.contains_key("master_key"@) || old(store)@.main.contains_key("use_padding"@)),
            forall|k: Seq<char>|
                !(k == "name"@ || k == "keypair"@ || k == "salt"@ || k == "master_key"@ || k
                    == "use_padding"@) ==> final(store)@.main.contains_key(k) == old(store)@.main.contains_key(k) && (old(store)@.main.contains_key(k) ==> final(store)@.main[k] == old(store)@.main[k]),
            r matches Ok(id) ==> {
                &&& id.wf()
                &&& id@.name == name@
                &&& id.use_padding == true
                &&& keypair_parses(id@.secret_key + id@.public_key)
                &&& load_spec(final(store)@.main, opt_slice_view(password)) == Ok::<
                    IdentityV,
                    LoadError,
                >(id@)
                &&& (password is None ==> final(store)@.main["master_key"@] == id@.master_key
                    && final(store)@.main["salt"@] == Seq::new(SALT_LEN as nat, |i: int| 0u8))
                &&& (password matches Some(pw) ==> final(store)@.main["master_key"@].len() == IV_LEN
                    + MASTER_KEY_LEN + AES_TAG_LEN && unwrap_spec(
                    final(store)@.main["master_key"@],
                    pw@,
                    final(store)@.main["salt"@],
                ) == Ok::<Seq<u8>, CryptoError>(id@.master_key))
            },
    {
        proof {
            lemma_meta_keys_distinct();
        }
        let keypair = generate_keypair();
        let master_key = generate_master_key();
        let secret_key = slice_to_vec(&keypair.as_slice()[0..32]);
        let public_key = slice_to_vec(&keypair.as_slice()[32..64]);
        let identity = Identity {
            name: name.to_owned(),
            secret_key,
            public_key,
            master_key,
            use_padding: true,
        };
        proof {
            assert(identity.secret_key@ + identity.public_key@ =~= keypair@);
        }
        let encrypted_keypair = identity.seal_field(keypair.as_slice());
        match store.main.set("name", name.as_bytes()) {
            Ok(_) => {},
            Err(e) => {
                return Err(e);
            },
        }
        match store.main.set("keypair", encrypted_keypair.as_slice()) {
            Ok(_) => {},
            Err(e) => {
                return Err(e);
            },
        }
        let salt: Vec<u8> = match password {
            None => {
                match store.main.set("master_key", identity.master_key.as_slice()) {
                    Ok(_) => {},
                    Err(e) => {
                        return Err(e);
                    },
                }
                let zero_salt: Vec<u8> = vec![0u8; SALT_LEN];
                zero_salt
            },
            Some(pw) => {
                let (fresh_salt, wrapped) = encrypt_master_key(identity.master_key.clone(), pw);
                match store.main.set("master_key", wrapped.as_slice()) {
                    Ok(_) => {},
                    Err(e) => {
                        return Err(e);
                    },
                }
                fresh_salt
            },
        };
        match store.main.set("salt", salt.as_slice()) {
            Ok(_) => {},
            Err(e) => {
                return Err(e);
            },
        }
        let use_padding_ct = identity.seal_bool(true);
        match store.main.set("use_padding", use_padding_ct.as_slice()) {
            Ok(_) => {},
            Err(e) => {
                return Err(e);
            },
        }
        proof {
            vstd::utf8::encode_utf8_valid_utf8(name@);
            vstd::utf8::encode_utf8_decode_utf8(name@);
        }
        Ok(identity)
    }

    fn update_master_key(store: &mut Store, master_key: Vec<u8>, new_password: Option<&[u8]>) -> (r:
        Result<usize, StoreError>)
        requires
            old(store).wf(),
            master_key@.len() == MASTER_KEY_LEN,
            old(store)@.main.contains_key("master_key"@),
            old(store)@.main.contains_key("salt"@),
        ensures
            final(store).wf(),
            r is Ok,
            final(store)@.contacts == old(store)@.contacts,
            final(store)@.files == old(store)@.files,
            final(store)@.avatars == old(store)@.avatars,
            final(store)@.conversations == old(store)@.conversations,
            forall|k: Seq<char>|
                #![trigger old(store)@.main.dom().contains(k)]
                !(k == "master_key"@ || k == "salt"@) ==> final(store)@.main.contains_key(k) == old(store)@.main.contains_key(k) && (old(store)@.main.contains_key(k) ==> final(store)@.main[k] == old(store)@.main[k]),
            final(store)@.main.contains_key("master_key"@),
            final(store)@.main.contains_key("salt"@),
            new_password is None ==> final(store)@.main["master_key"@] == master_key@ && final(store)@.main["salt"@] == Seq::new(SALT_LEN as nat, |i: int| 0u8),
            new_password matches Some(pw) ==> unwrap_spec(
                final(store)@.main["master_key"@],
                pw@,
                final(store)@.main["salt"@],
            ) == Ok::<Seq<u8>, CryptoError>(master_key@),
    {
        proof {
            lemma_meta_keys_distinct();
        }
        let salt: Vec<u8> = match new_password {
            None => {
                let r = store.main.update("master_key", master_key.as_slice());
                let zero_salt: Vec<u8> = vec![0u8; SALT_LEN];
                zero_salt
            },
            Some(pw) => {
                let (fresh_salt, wrapped) = encrypt_master_key(master_key, pw);
                let r = store.main.update("master_key", wrapped.as_slice());
                fresh_salt
            },
        };
        store.main.update("salt", salt.as_slice())
    }

    /// Re-wrap the stored master key under a new password (or store it raw
    /// when none is given). The key itself does not change, so every sealed
    /// row keeps decrypting as before. Returns `false` exactly when the old
    /// password is wrong.
    pub fn change_password(
        store: &mut Store,
        old_password: Option<&[u8]>,
        new_password: Option<&[u8]>,
    ) -> (r: Result<bool, LoadError>)
        requires
            old(store).wf(),
        ensures
            final(store).wf(),
            final(store)@.contacts == old(store)@.contacts,
            final(store)@.files == old(store)@.files,
            final(store)@.avatars == old(store)@.avatars,
            final(store)@.conversations == old(store)@.conversations,
            (r == Ok::<bool, LoadError>(true)) == (unwrap_stored(
                old(store)@.main,
                opt_slice_view(old_password),
            ) is Ok),
            (r == Ok::<bool, LoadError>(false)) == (unwrap_stored(
                old(store)@.main,
                opt_slice_view(old_password),
            ) == Err::<Seq<u8>, LoadError>(LoadError::BadPassword)),
            r matches Err(e) ==> unwrap_stored(old(store)@.main, opt_slice_view(old_password))
                == Err::<Seq<u8>, LoadError>(e),
            (r == Ok::<bool, LoadError>(false) || r is Err) ==> final(store)@.main == old(store)@.main,
            r == Ok::<bool, LoadError>(true) ==> {
                &&& forall|k: Seq<char>|
                    !(k == "master_key"@ || k == "salt"@) ==> final(store)@.main.contains_key(k)
                        == old(store)@.main.contains_key(k) && (old(store)@.main.contains_key(k)
                        ==> final(store)@.main[k] == old(store)@.main[k])
                &&& unwrap_stored(final(store)@.main, opt_slice_view(new_password)) == Ok::<
                    Seq<u8>,
                    LoadError,
                >(unwrap_stored(old(store)@.main, opt_slice_view(old_password))->Ok_0)
            },
    {
        proof {
            lemma_meta_keys_distinct();
        }
        match store.main.get("name") {
            Ok(_) => {},
            Err(_) => {
                return Err(LoadError::Storage);
            },
        }
        match store.main.get("keypair") {
            Ok(_) => {},
            Err(_) => {
                return Err(LoadError::Storage);
            },
        }
        let salt = match store.main.get("salt") {
            Ok(v) => v,
            Err(_) => {
                return Err(LoadError::Storage);
            },
        };
        let master_key_field = match store.main.get("master_key") {
            Ok(v) => v,
            Err(_) => {
                return Err(LoadError::Storage);
            },
        };
        match store.main.get("use_padding") {
            Ok(_) => {},
            Err(_) => {
                return Err(LoadError::Storage);
            },
        }
        let master_key = match old_password {
            None => {
                if master_key_field.len() == MASTER_KEY_LEN {
                    master_key_field
                } else {
                    return Err(LoadError::Corrupted);
                }
            },
            Some(pw) => {
                match decrypt_master_key(master_key_field.as_slice(), pw, salt.as_slice()) {
                    Ok(mk) => mk,
                    Err(CryptoError::DecryptionFailed) => {
                        return Ok(false);
                    },
                    Err(CryptoError::InvalidLength) => {
                        return Err(LoadError::Corrupted);
                    },
                }
            },
        };
        match Identity::update_master_key(store, master_key, new_password) {
            Ok(_) => {
                proof {
                    assert forall|k: Seq<char>|
                        !(k == "master_key"@ || k == "salt"@) implies store@.main.contains_key(k)
                        == old(store)@.main.contains_key(k) && (old(store)@.main.contains_key(k)
                        ==> store@.main[k] == old(store)@.main[k]) by {
                        assert(!(k == "master_key"@ || k == "salt"@) ==> store@.main.contains_key(
                            k,
                        ) == old(store)@.main.contains_key(k) && (old(store)@.main.contains_key(k)
                            ==> store@.main[k] == old(store)@.main[k]));
                    }
                }
                Ok(true)
            },
            Err(_) => {
                proof {
                    assert(false);
                }
                Err(LoadError::Storage)
            },
        }
    }
}

/// The contact a stored row decodes to under a master key, when every
/// sealed field opens, the booleans are well formed, the name is text, and
/// the plaintext uuids have their 16 bytes. A row failing any of these is
/// skipped by bulk reads.
pub open spec fn contact_of_row(row: ContactRowV, key: Seq<u8>) -> Option<ContactV> {
    let pk_r = decrypt_spec(row.key_ct, key);
    let nm_r = decrypt_spec(row.name_ct, key);
    let ve_r = decrypt_spec(row.verified_ct, key);
    let se_r = decrypt_spec(row.seen_ct, key);
    if {
        &&& pk_r matches Ok(pk) && pk.len() == 32
        &&& nm_r matches Ok(nm) && valid_utf8(nm)
        &&& ve_r matches Ok(ve) && ve.len() == 1 && bool_of_byte(ve[0]) is Some
        &&& se_r matches Ok(se) && se.len() == 1 && bool_of_byte(se[0]) is Some
        &&& row.uuid.len() == 16
        &&& (row.avatar matches Some(a) ==> a.len() == 16)
    } {
        Some(
            ContactV {
                uuid: row.uuid,
                public_key: pk_r->Ok_0,
                name: decode_utf8(nm_r->Ok_0),
                avatar: row.avatar,
                verified: bool_of_byte(ve_r->Ok_0[0]).unwrap(),
                seen: bool_of_byte(se_r->Ok_0[0]).unwrap(),
            },
        )
    } else {
        None
    }
}

/// The contacts a sequence of rows decodes to, in storage order, rows that
/// fail to decode left out.
pub open spec fn decoded_contacts(rows: Seq<ContactRowV>, key: Seq<u8>) -> Seq<ContactV>
    decreases rows.len(),
{
    if rows.len() == 0 {
        Seq::empty()
    } else {
        let rest = decoded_contacts(rows.drop_last(), key);
        match contact_of_row(rows.last(), key) {
            Some(c) => rest.push(c),
            None => rest,
        }
    }
}

/// How many contact rows carry a uuid.
pub open spec fn count_with_uuid(rows: Seq<ContactRowV>, uuid: Seq<u8>) -> nat
    decreases rows.len(),
{
    if rows.len() == 0 {
        0
    } else {
        count_with_uuid(rows.drop_last(), uuid) + (if rows.last().uuid == uuid {
            1nat
        } else {
            0nat
        })
    }
}

impl Identity {
    /// Decode one contact row, if all its fields open and parse.
    fn open_contact_row(&self, row: &ContactRow) -> (r: Option<Contact>)
        requires
            self.wf(),
        ensures
            (r is Some) == (contact_of_row(row@, self.master_key@) is Some),
            r matches Some(c) ==> contact_of_row(row@, self.master_key@) == Some(c@),
    {
        let public_key = match decrypt_data(row.key_ct.as_slice(), self.master_key.as_slice()) {
            Ok(pk) => pk,
            Err(_) => {
                return None;
            },
        };
        if public_key.len() != 32 {
            return None;
        }
        let name_bytes = match decrypt_data(row.name_ct.as_slice(), self.master_key.as_slice()) {
            Ok(nm) => nm,
            Err(_) => {
                return None;
            },
        };
        let name = match bytes_to_string(name_bytes) {
            Some(s) => s,
            None => {
                return None;
            },
        };
        let verified_bytes = match decrypt_data(
            row.verified_ct.as_slice(),
            self.master_key.as_slice(),
        ) {
            Ok(v) => v,
            Err(_) => {
                return None;
            },
        };
        if verified_bytes.len() != 1 {
            return None;
        }
        let verified = match byte_to_bool(verified_bytes[0]) {
            Ok(b) => b,
            Err(_) => {
                return None;
            },
        };
        let seen_bytes = match decrypt_data(row.seen_ct.as_slice(), self.master_key.as_slice()) {
            Ok(v) => v,
            Err(_) => {
                return None;
            },
        };
        if seen_bytes.len() != 1 {
            return None;
        }
        let seen = match byte_to_bool(seen_bytes[0]) {
            Ok(b) => b,
            Err(_) => {
                return None;
            },
        };
        if row.uuid.len() != 16 {
            return None;
        }
        match &row.avatar {
            Some(a) => {
                if a.len() != 16 {
                    return None;
                }
            },
            None => {},
        }
        Some(
            Contact {
                uuid: clone_bytes(&row.uuid),
                public_key,
                name,
                avatar: clone_opt_bytes(&row.avatar),
                verified,
                seen,
            },
        )
    }

    /// Add a contact under a fresh random uuid: its name, public key and
    /// flags sealed, the uuid and avatar pointer plain. The new row decodes
    /// back to the returned contact; nothing else changes.
    pub fn add_contact(
        &self,
        store: &mut Store,
        name: String,
        avatar_uuid: Option<Vec<u8>>,
        public_key: &[u8],
    ) -> (r: Result<Contact, StoreError>)
        requires
            self.wf(),
            old(store).wf(),
            public_key@.len() == 32,
            encode_utf8(name@).len() <= AEAD_PLAINTEXT_MAX,
            avatar_uuid matches Some(a) ==> a@.len() == 16,
        ensures
            final(store).wf(),
            final(store)@.main == old(store)@.main,
            final(store)@.files == old(store)@.files,
            final(store)@.avatars == old(store)@.avatars,
            final(store)@.conversations == old(store)@.conversations,
            r is Ok,
            final(store)@.contacts is Some,
            r matches Ok(c) ==> {
                let old_rows = if old(store)@.contacts is Some {
                    old(store)@.contacts->0
                } else {
                    Seq::<ContactRowV>::empty()
                };
                let new_rows = final(store)@.contacts->0;
                &&& new_rows.len() == old_rows.len() + 1
                &&& new_rows.drop_last() == old_rows
                &&& contact_of_row(new_rows.last(), self.master_key@) == Some(c@)
                &&& c@.name == name@
                &&& c@.public_key == public_key@
                &&& c@.avatar == opt_bytes_view(avatar_uuid)
                &&& c@.verified == false
                &&& c@.seen == true
                &&& c@.uuid.len() == 16
            },
    {
        let uuid = generate_uuid();
        let name_ct = self.seal_field(name.as_str().as_bytes());
        let key_ct = self.seal_field(public_key);
        let verified_ct = self.seal_bool(false);
        let seen_ct = self.seal_bool(true);
        let row = ContactRow {
            uuid: clone_bytes(&uuid),
            name_ct,
            avatar: clone_opt_bytes(&avatar_uuid),
            key_ct,
            verified_ct,
            seen_ct,
        };
        proof {
            vstd::utf8::encode_utf8_valid_utf8(name@);
            vstd::utf8::encode_utf8_decode_utf8(name@);
        }
        if store.contacts.is_none() {
            store.contacts = Some(Vec::new());
        }
        let ghost row_v = row@;
        match &mut store.contacts {
            Some(rows) => {
                let ghost before = views_of(rows@);
                rows.push(row);
                proof {
                    assert(views_of(rows@) =~= before.push(row_v));
                }
            },
            None => {
                proof {
                    assert(false);
                }
            },
        }
        let contact = Contact {
            uuid,
            public_key: slice_to_vec(public_key),
            name,
            avatar: avatar_uuid,
            verified: false,
            seen: true,
        };
        proof {
            if old(store)@.contacts is Some {
                assert(final(store)@.contacts->0.drop_last() =~= old(store)@.contacts->0);
            } else {
                assert(final(store)@.contacts->0.drop_last() =~= Seq::<ContactRowV>::empty());
            }
        }
        Ok(contact)
    }

    /// Decrypt every contact row, skipping rows that fail to open, in
    /// storage order. Yields nothing when no contacts table exists.
    pub fn load_contacts(&self, store: &Store) -> (r: Option<Vec<Contact>>)
        requires
            self.wf(),
        ensures
            (r is Some) == (store@.contacts is Some),
            r matches Some(cs) ==> views_of(cs@) == decoded_contacts(
                store@.contacts->0,
                self.master_key@,
            ),
    {
        match &store.contacts {
            None => None,
            Some(rows) => {
                let ghost all: Seq<ContactRowV> = views_of(rows@);
                let mut out: Vec<Contact> = Vec::new();
                let n = rows.len();
                for i in 0..n
                    invariant
                        self.wf(),
                        n == rows@.len(),
                        all == views_of(rows@),
                        views_of(out@) == decoded_contacts(all.take(i as int), self.master_key@),
                {
                    let ghost prefix = all.take(i as int);
                    let ghost out_before = views_of(out@);
                    match self.open_contact_row(&rows[i]) {
                        Some(c) => {
                            let ghost cv = c@;
                            out.push(c);
                            proof {
                                assert(views_of(out@) =~= out_before.push(cv));
                            }
                        },
                        None => {},
                    }
                    proof {
                        assert(all.take(i + 1).drop_last() =~= prefix);
                        assert(all.take(i + 1).last() == rows@[i as int]@);
                    }
                }
                proof {
                    assert(all.take(n as int) =~= all);
                }
                Some(out)
            },
        }
    }

    /// Overwrite the sealed verified flag with true on every row of one
    /// contact. Fails only when no contacts table exists; returns how many
    /// rows changed.
    pub fn set_verified(&self, store: &mut Store, uuid: &[u8]) -> (r: Result<usize, StoreError>)
        requires
            self.wf(),
            old(store).wf(),
        ensures
            final(store).wf(),
            final(store)@.main == old(store)@.main,
            final(store)@.files == old(store)@.files,
            final(store)@.avatars == old(store)@.avatars,
            final(store)@.conversations == old(store)@.conversations,
            (r is Ok) == (old(store)@.contacts is Some),
            r matches Err(e) ==> e == StoreError::NotFound && final(store)@ == old(store)@,
            r is Ok ==> {
                let rows1 = old(store)@.contacts->0;
                let rows2 = final(store)@.contacts->0;
                &&& final(store)@.contacts is Some
                &&& rows2.len() == rows1.len()
                &&& (forall|i: int|
                    0 <= i < rows1.len() && rows1[i].uuid != uuid@ ==> rows2[i] == rows1[i])
                &&& (forall|i: int|
                    0 <= i < rows1.len() && rows1[i].uuid == uuid@ ==> {
                        &&& (#[trigger] rows2[i]).uuid == rows1[i].uuid
                        &&& rows2[i].name_ct == rows1[i].name_ct
                        &&& rows2[i].avatar == rows1[i].avatar
                        &&& rows2[i].key_ct == rows1[i].key_ct
                        &&& rows2[i].seen_ct == rows1[i].seen_ct
                        &&& decrypt_spec(rows2[i].verified_ct, self.master_key@) == Ok::<
                            Seq<u8>,
                            CryptoError,
                        >(seq![byte_of_bool(true)])
                    })
                &&& r->Ok_0 as nat == count_with_uuid(rows1, uuid@)
            },
    {
        let sealed = self.seal_bool(true);
        match &mut store.contacts {
            None => Err(StoreError::NotFound),
            Some(rows) => {
                let ghost rows1: Seq<ContactRowV> = views_of(rows@);
                let n = rows.len();
                let mut count: usize = 0;
                for i in 0..n
                    invariant
                        self.wf(),
                        n == rows@.len(),
                        rows1.len() == n,
                        count <= i,
                        count as nat == count_with_uuid(rows1.take(i as int), uuid@),
                        decrypt_spec(sealed@, self.master_key@) == Ok::<Seq<u8>, CryptoError>(
                            seq![byte_of_bool(true)],
                        ),
                        forall|j: int| i <= j < n ==> views_of(rows@)[j] == rows1[j],
                        forall|j: int|
                            0 <= j < i && rows1[j].uuid != uuid@ ==> views_of(rows@)[j] == rows1[j],
                        forall|j: int|
                            0 <= j < i && rows1[j].uuid == uuid@ ==> {
                                &&& (#[trigger] views_of(rows@)[j]).uuid == rows1[j].uuid
                                &&& views_of(rows@)[j].name_ct == rows1[j].name_ct
                                &&& views_of(rows@)[j].avatar == rows1[j].avatar
                                &&& views_of(rows@)[j].key_ct == rows1[j].key_ct
                                &&& views_of(rows@)[j].seen_ct == rows1[j].seen_ct
                                &&& decrypt_spec(views_of(rows@)[j].verified_ct, self.master_key@)
                                    == Ok::<Seq<u8>, CryptoError>(seq![byte_of_bool(true)])
                            },
                {
                    let ghost prefix = rows1.take(i as int);
                    let ghost entry_rows = rows@;
                    if bytes_eq(rows[i].uuid.as_slice(), uuid) {
                        let new_row = ContactRow {
                            uuid: clone_bytes(&rows[i].uuid),
                            name_ct: clone_bytes(&rows[i].name_ct),
                            avatar: clone_opt_bytes(&rows[i].avatar),
                            key_ct: clone_bytes(&rows[i].key_ct),
                            verified_ct: clone_bytes(&sealed),
                            seen_ct: clone_bytes(&rows[i].seen_ct),
                        };
                        let ghost new_row_v = new_row@;
                        rows.set(i, new_row);
                        count += 1;
                        proof {
                            assert forall|j: int| 0 <= j < n && j != i implies (#[trigger] views_of(
                                rows@,
                            )[j]) == views_of(entry_rows)[j] by {
                                assert(rows@[j] == entry_rows[j]);
                            }
                            assert(views_of(rows@)[i as int] == new_row_v);
                            assert(views_of(entry_rows)[i as int] == rows1[i as int]);
                        }
                    } else {
                        proof {
                            assert forall|j: int| 0 <= j < n implies (#[trigger] views_of(
                                rows@,
                            )[j]) == views_of(entry_rows)[j] by {
                                assert(rows@[j] == entry_rows[j]);
                            }
                        }
                    }
                    proof {
                        assert(rows1.take(i + 1).drop_last() =~= prefix);
                        assert(rows1.take(i + 1).last() == rows1[i as int]);
                    }
                }
                proof {
                    assert(rows1.take(n as int) =~= rows1);
                }
                Ok(count)
            },
        }
    }


    /// Overwrite the sealed name on every row of one contact. Fails only
    /// when no contacts table exists; returns how many rows changed.
    pub fn change_contact_name(&self, store: &mut Store, uuid: &[u8], new_name: &str) -> (r: Result<usize, StoreError>)
        requires
            self.wf(),
            old(store).wf(),
            encode_utf8(new_name@).len() <= AEAD_PLAINTEXT_MAX,
        ensures
            final(store).wf(),
            final(store)@.main == old(store)@.main,
            final(store)@.files == old(store)@.files,
            final(store)@.avatars == old(store)@.avatars,
            final(store)@.conversations == old(store)@.conversations,
            (r is Ok) == (old(store)@.contacts is Some),
            r matches Err(e) ==> e == StoreError::NotFound && final(store)@ == old(store)@,
            r is Ok ==> {
                let rows1 = old(store)@.contacts->0;
                let rows2 = final(store)@.contacts->0;
                &&& final(store)@.contacts is Some
                &&& rows2.len() == rows1.len()
                &&& (forall|i: int|
                    0 <= i < rows1.len() && rows1[i].uuid != uuid@ ==> rows2[i] == rows1[i])
                &&& (forall|i: int|
                    0 <= i < rows1.len() && rows1[i].uuid == uuid@ ==> {
                        &&& (#[trigger] rows2[i]).uuid == rows1[i].uuid
                        &&& rows2[i].verified_ct == rows1[i].verified_ct
                        &&& rows2[i].avatar == rows1[i].avatar
                        &&& rows2[i].key_ct == rows1[i].key_ct
                        &&& rows2[i].seen_ct == rows1[i].seen_ct
                        &&& decrypt_spec(rows2[i].name_ct, self.master_key@) == Ok::<
                            Seq<u8>,
                            CryptoError,
                        >(encode_utf8(new_name@))
                    })
                &&& r->Ok_0 as nat == count_with_uuid(rows1, uuid@)
            },
    {
        let sealed = self.seal_field(new_name.as_bytes());
        match &mut store.contacts {
            None => Err(StoreError::NotFound),
            Some(rows) => {
                let ghost rows1: Seq<ContactRowV> = views_of(rows@);
                let n = rows.len();
                let mut count: usize = 0;
                for i in 0..n
                    invariant
                        self.wf(),
                        n == rows@.len(),
                        rows1.len() == n,
                        count <= i,
                        count as nat == count_with_uuid(rows1.take(i as int), uuid@),
                        decrypt_spec(sealed@, self.master_key@) == Ok::<Seq<u8>, CryptoError>(
                            encode_utf8(new_name@),
                        ),
                        forall|j: int| i <= j < n ==> views_of(rows@)[j] == rows1[j],
                        forall|j: int|
                            0 <= j < i && rows1[j].uuid != uuid@ ==> views_of(rows@)[j] == rows1[j],
                        forall|j: int|
                            0 <= j < i && rows1[j].uuid == uuid@ ==> {
                                &&& (#[trigger] views_of(rows@)[j]).uuid == rows1[j].uuid
                                &&& views_of(rows@)[j].verified_ct == rows1[j].verified_ct
                                &&& views_of(rows@)[j].avatar == rows1[j].avatar
                                &&& views_of(rows@)[j].key_ct == rows1[j].key_ct
                                &&& views_of(rows@)[j].seen_ct == rows1[j].seen_ct
                                &&& decrypt_spec(views_of(rows@)[j].name_ct, self.master_key@)
                                    == Ok::<Seq<u8>, CryptoError>(encode_utf8(new_name@))
                            },
                {
                    let ghost prefix = rows1.take(i as int);
                    let ghost entry_rows = rows@;
                    if bytes_eq(rows[i].uuid.as_slice(), uuid) {
                        let new_row = ContactRow {
                            uuid: clone_bytes(&rows[i].uuid),
                            name_ct: clone_bytes(&sealed),
                            avatar: clone_opt_bytes(&rows[i].avatar),
                            key_ct: clone_bytes(&rows[i].key_ct),
                            verified_ct: clone_bytes(&rows[i].verified_ct),
                            seen_ct: clone_bytes(&rows[i].seen_ct),
                        };
                        let ghost new_row_v = new_row@;
                        rows.set(i, new_row);
                        count += 1;
                        proof {
                            assert forall|j: int| 0 <= j < n && j != i implies (#[trigger] views_of(
                                rows@,
                            )[j]) == views_of(entry_rows)[j] by {
                                assert(rows@[j] == entry_rows[j]);
                            }
                            assert(views_of(rows@)[i as int] == new_row_v);
                            assert(views_of(entry_rows)[i as int] == rows1[i as int]);
                        }
                    } else {
                        proof {
                            assert forall|j: int| 0 <= j < n implies (#[trigger] views_of(
                                rows@,
                            )[j]) == views_of(entry_rows)[j] by {
                                assert(rows@[j] == entry_rows[j]);
                            }
                        }
                    }
                    proof {
                        assert(rows1.take(i + 1).drop_last() =~= prefix);
                        assert(rows1.take(i + 1).last() == rows1[i as int]);
                    }
                }
                proof {
                    assert(rows1.take(n as int) =~= rows1);
                }
                Ok(count)
            },
        }
    }


    /// Overwrite the sealed seen flag on every row of one contact. Fails
    /// only when no contacts table exists; returns how many rows changed.
    pub fn set_contact_seen(&self, store: &mut Store, uuid: &[u8], seen: bool) -> (r: Result<usize, StoreError>)
        requires
            self.wf(),
            old(store).wf(),
        ensures
            final(store).wf(),
            final(store)@.main == old(store)@.main,
            final(store)@.files == old(store)@.files,
            final(store)@.avatars == old(store)@.avatars,
            final(store)@.conversations == old(store)@.conversations,
            (r is Ok) == (old(store)@.contacts is Some),
            r matches Err(e) ==> e == StoreError::NotFound && final(store)@ == old(store)@,
            r is Ok ==> {
                let rows1 = old(store)@.contacts->0;
                let rows2 = final(store)@.contacts->0;
                &&& final(store)@.contacts is Some
                &&& rows2.len() == rows1.len()
                &&& (forall|i: int|
                    0 <= i < rows1.len() && rows1[i].uuid != uuid@ ==> rows2[i] == rows1[i])
                &&& (forall|i: int|
                    0 <= i < rows1.len() && rows1[i].uuid == uuid@ ==> {
                        &&& (#[trigger] rows2[i]).uuid == rows1[i].uuid
                        &&& rows2[i].name_ct == rows1[i].name_ct
                        &&& rows2[i].avatar == rows1[i].avatar
                        &&& rows2[i].key_ct == rows1[i].key_ct
                        &&& rows2[i].verified_ct == rows1[i].verified_ct
                        &&& decrypt_spec(rows2[i].seen_ct, self.master_key@) == Ok::<
                            Seq<u8>,
                            CryptoError,
                        >(seq![byte_of_bool(seen)])
                    })
                &&& r->Ok_0 as nat == count_with_uuid(rows1, uuid@)
            },
    {
        let sealed = self.seal_bool(seen);
        match &mut store.contacts {
            None => Err(StoreError::NotFound),
            Some(rows) => {
                let ghost rows1: Seq<ContactRowV> = views_of(rows@);
                let n = rows.len();
                let mut count: usize = 0;
                for i in 0..n
                    invariant
                        self.wf(),
                        n == rows@.len(),
                        rows1.len() == n,
                        count <= i,
                        count as nat == count_with_uuid(rows1.take(i as int), uuid@),
                        decrypt_spec(sealed@, self.master_key@) == Ok::<Seq<u8>, CryptoError>(
                            seq![byte_of_bool(seen)],
                        ),
                        forall|j: int| i <= j < n ==> views_of(rows@)[j] == rows1[j],
                        forall|j: int|
                            0 <= j < i && rows1[j].uuid != uuid@ ==> views_of(rows@)[j] == rows1[j],
                        forall|j: int|
                            0 <= j < i && rows1[j].uuid == uuid@ ==> {
                                &&& (#[trigger] views_of(rows@)[j]).uuid == rows1[j].uuid
                                &&& views_of(rows@)[j].name_ct == rows1[j].name_ct
                                &&& views_of(rows@)[j].avatar == rows1[j].avatar
                                &&& views_of(rows@)[j].key_ct == rows1[j].key_ct
                                &&& views_of(rows@)[j].verified_ct == rows1[j].verified_ct
                                &&& decrypt_spec(views_of(rows@)[j].seen_ct, self.master_key@)
                                    == Ok::<Seq<u8>, CryptoError>(seq![byte_of_bool(seen)])
                            },
                {
                    let ghost prefix = rows1.take(i as int);
                    let ghost entry_rows = rows@;
                    if bytes_eq(rows[i].uuid.as_slice(), uuid) {
                        let new_row = ContactRow {
                            uuid: clone_bytes(&rows[i].uuid),
                            name_ct: clone_bytes(&rows[i].name_ct),
                            avatar: clone_opt_bytes(&rows[i].avatar),
                            key_ct: clone_bytes(&rows[i].key_ct),
                            verified_ct: clone_bytes(&rows[i].verified_ct),
                            seen_ct: clone_bytes(&sealed),
                        };
                        let ghost new_row_v = new_row@;
                        rows.set(i, new_row);
                        count += 1;
                        proof {
                            assert forall|j: int| 0 <= j < n && j != i implies (#[trigger] views_of(
                                rows@,
                            )[j]) == views_of(entry_rows)[j] by {
                                assert(rows@[j] == entry_rows[j]);
                            }
                            assert(views_of(rows@)[i as int] == new_row_v);
                            assert(views_of(entry_rows)[i as int] == rows1[i as int]);
                        }
                    } else {
                        proof {
                            assert forall|j: int| 0 <= j < n implies (#[trigger] views_of(
                                rows@,
                            )[j]) == views_of(entry_rows)[j] by {
                                assert(rows@[j] == entry_rows[j]);
                            }
                        }
                    }
                    proof {
                        assert(rows1.take(i + 1).drop_last() =~= prefix);
                        assert(rows1.take(i + 1).last() == rows1[i as int]);
                    }
                }
                proof {
                    assert(rows1.take(n as int) =~= rows1);
                }
                Ok(count)
            },
        }
    }
}

/// The message a stored row decodes to under a master key: the sealed
/// direction byte must spell a boolean, the sealed timestamp must hold
/// eight big-endian bytes, and the payload must open.
pub open spec fn msg_of_row(row: MsgRowV, key: Seq<u8>) -> Option<MessageV> {
    let og_r = decrypt_spec(row.outgoing_ct, key);
    let ts_r = decrypt_spec(row.timestamp_ct, key);
    let da_r = decrypt_spec(row.data_ct, key);
    if {
        &&& og_r matches Ok(og) && og.len() == 1 && bool_of_byte(og[0]) is Some
        &&& ts_r matches Ok(ts) && ts.len() == 8
        &&& da_r is Ok
    } {
        Some(
            MessageV {
                outgoing: bool_of_byte(og_r->Ok_0[0]).unwrap(),
                timestamp: be_bytes_u64(ts_r->Ok_0),
                data: da_r->Ok_0,
            },
        )
    } else {
        None
    }
}

/// The messages a sequence of rows decodes to, in storage order, rows that
/// fail to decode left out.
pub open spec fn decoded_msgs(rows: Seq<MsgRowV>, key: Seq<u8>) -> Seq<MessageV>
    decreases rows.len(),
{
    if rows.len() == 0 {
        Seq::empty()
    } else {
        let rest = decoded_msgs(rows.drop_last(), key);
        match msg_of_row(rows.last(), key) {
            Some(m) => rest.push(m),
            None => rest,
        }
    }
}

impl Identity {
    /// Decode one message row, if all its fields open and parse.
    fn open_msg_row(&self, row: &MsgRow) -> (r: Option<Message>)
        requires
            self.wf(),
        ensures
            (r is Some) == (msg_of_row(row@, self.master_key@) is Some),
            r matches Some(m) ==> msg_of_row(row@, self.master_key@) == Some(m@),
    {
        let outgoing_bytes = match decrypt_data(
            row.outgoing_ct.as_slice(),
            self.master_key.as_slice(),
        ) {
            Ok(v) => v,
            Err(_) => {
                return None;
            },
        };
        if outgoing_bytes.len() != 1 {
            return None;
        }
        let outgoing = match byte_to_bool(outgoing_bytes[0]) {
            Ok(b) => b,
            Err(_) => {
                return None;
            },
        };
        let timestamp_bytes = match decrypt_data(
            row.timestamp_ct.as_slice(),
            self.master_key.as_slice(),
        ) {
            Ok(v) => v,
            Err(_) => {
                return None;
            },
        };
        if timestamp_bytes.len() != 8 {
            return None;
        }
        let timestamp = u64_from_be(timestamp_bytes.as_slice());
        let data = match decrypt_data(row.data_ct.as_slice(), self.master_key.as_slice()) {
            Ok(v) => v,
            Err(_) => {
                return None;
            },
        };
        Some(Message { outgoing, timestamp, data })
    }

    /// Append one message to a contact's log, creating the log on first
    /// use. The appended row decodes back to the message; every other log
    /// and table is untouched.
    #[verifier::rlimit(50)]
    pub fn store_msg(&self, store: &mut Store, contact_uuid: &[u8], message: Message) -> (r:
        Result<usize, StoreError>)
        requires
            self.wf(),
            old(store).wf(),
            message.data@.len() <= AEAD_PLAINTEXT_MAX,
        ensures
            final(store).wf(),
            final(store)@.main == old(store)@.main,
            final(store)@.contacts == old(store)@.contacts,
            final(store)@.files == old(store)@.files,
            final(store)@.avatars == old(store)@.avatars,
            r == Ok::<usize, StoreError>(1),
            has_conv(final(store)@, contact_uuid@),
            ({
                let old_rows = if has_conv(old(store)@, contact_uuid@) {
                    conv_rows(old(store)@, contact_uuid@)
                } else {
                    Seq::<MsgRowV>::empty()
                };
                let new_rows = conv_rows(final(store)@, contact_uuid@);
                &&& new_rows.len() == old_rows.len() + 1
                &&& new_rows.drop_last() == old_rows
                &&& msg_of_row(new_rows.last(), self.master_key@) == Some(message@)
            }),
            convs_preserved_except(old(store)@, final(store)@, contact_uuid@),
    {
        let timestamp_bytes = u64_to_be(message.timestamp);
        let row = MsgRow {
            outgoing_ct: self.seal_bool(message.outgoing),
            timestamp_ct: self.seal_field(timestamp_bytes.as_slice()),
            data_ct: self.seal_field(message.data.as_slice()),
        };
        let ghost row_v = row@;
        proof {
            lemma_u64_be_round_trip(message.timestamp);
        }
        let ghost convs1 = old(store)@.conversations;
        let idx = match store.find_conv(contact_uuid) {
            Some(i) => {
                proof {
                    lemma_conv_at(store@, i as int);
                }
                i
            },
            None => {
                store.conversations.push(
                    Conversation { contact_uuid: slice_to_vec(contact_uuid), rows: Vec::new() },
                );
                proof {
                    assert forall|j: int|
                        0 <= j < store@.conversations.len() - 1 implies #[trigger] store@.conversations[j]
                        == convs1[j] by {
                        assert(store@.conversations[j] == store.conversations@[j]@);
                    }
                    assert(store@.conversations.last().contact_uuid == contact_uuid@);
                    assert(store@.conversations.last().rows =~= Seq::<MsgRowV>::empty());
                }
                store.conversations.len() - 1
            },
        };
        let ghost convs_mid = store@.conversations;
        let ghost mid_rows = convs_mid[idx as int].rows;
        let conversation = vec_index_mut(&mut store.conversations, idx);
        let ghost inner_before = conversation.rows@;
        conversation.rows.push(row);
        proof {
            assert(views_of(conversation.rows@) =~= views_of(inner_before).push(row_v));
            let convs2 = store@.conversations;
            assert forall|j: int| 0 <= j < convs2.len() && j != idx implies #[trigger] convs2[j]
                == convs_mid[j] by {
                assert(convs2[j] == store.conversations@[j]@);
            }
            assert(convs2[idx as int].contact_uuid == contact_uuid@);
            assert(convs2[idx as int].rows == mid_rows.push(row_v));
            assert(convs_distinct(convs2)) by {
                assert forall|a: int, b: int|
                    0 <= a < b < convs2.len() implies convs2[a].contact_uuid
                    != convs2[b].contact_uuid by {
                    if has_conv(old(store)@, contact_uuid@) {
                        assert(convs_mid == convs1);
                        assert(convs_mid[a].contact_uuid != convs_mid[b].contact_uuid);
                    } else {
                        if b < convs2.len() - 1 {
                            assert(convs_mid[a].contact_uuid == convs1[a].contact_uuid);
                            assert(convs_mid[b].contact_uuid == convs1[b].contact_uuid);
                            assert(convs1[a].contact_uuid != convs1[b].contact_uuid);
                        } else {
                            assert(!(exists|i: int|
                                0 <= i < convs1.len() && convs1[i].contact_uuid
                                    == contact_uuid@));
                            assert(convs_mid[a].contact_uuid == convs1[a].contact_uuid);
                            assert(convs1[a].contact_uuid != contact_uuid@);
                        }
                    }
                }
            }
            lemma_conv_at(store@, idx as int);
            if has_conv(old(store)@, contact_uuid@) {
                lemma_conv_at(old(store)@, idx as int);
            }
            assert(convs_preserved_except(old(store)@, store@, contact_uuid@)) by {
                assert forall|u: Seq<u8>|
                    u != contact_uuid@ implies #[trigger] has_conv(store@, u) == has_conv(
                    old(store)@,
                    u,
                ) && (has_conv(old(store)@, u) ==> conv_rows(store@, u) == conv_rows(
                    old(store)@,
                    u,
                )) by {
                    if has_conv(old(store)@, u) {
                        let j = conv_index(old(store)@, u);
                        assert(0 <= j < convs1.len() && convs1[j].contact_uuid == u) by {
                            assert(has_conv(old(store)@, u));
                        }
                        assert(j != idx);
                        assert(convs_mid[j] == convs1[j]);
                        assert(store@.conversations[j] == convs1[j]);
                        assert(has_conv(store@, u));
                        lemma_conv_at(store@, j);
                        lemma_conv_at(old(store)@, j);
                        assert(conv_rows(store@, u) =~= conv_rows(old(store)@, u));
                    }
                    if has_conv(store@, u) {
                        let j = conv_index(store@, u);
                        assert(0 <= j < store@.conversations.len()
                            && store@.conversations[j].contact_uuid == u) by {
                            assert(has_conv(store@, u));
                        }
                        assert(j != idx);
                        assert(j < convs1.len());
                        assert(convs1[j].contact_uuid == u);
                        assert(has_conv(old(store)@, u));
                    }
                }
            }
            let new_rows = conv_rows(store@, contact_uuid@);
            if has_conv(old(store)@, contact_uuid@) {
                assert(new_rows.drop_last() =~= conv_rows(old(store)@, contact_uuid@));
            } else {
                assert(new_rows.drop_last() =~= Seq::<MsgRowV>::empty());
            }
            assert(msg_of_row(new_rows.last(), self.master_key@) =~= Some(message@));
        }
        Ok(1)
    }

    /// Read a window of a contact's log. `offset` counts back from the
    /// newest message; up to `count` messages ending `offset` rows before
    /// the newest come back in storage order, rows that fail to decode left
    /// out. Fails when the log does not exist or `offset` runs past it.
    pub fn load_msgs(&self, store: &Store, contact_uuid: &[u8], offset: usize, count: usize) -> (r:
        Option<Vec<Message>>)
        requires
            self.wf(),
            store.wf(),
        ensures
            (r is Some) == (has_conv(store@, contact_uuid@) && offset < conv_rows(
                store@,
                contact_uuid@,
            ).len()),
            r matches Some(ms) ==> {
                let rows = conv_rows(store@, contact_uuid@);
                let total = rows.len() as int;
                let cnt = if count as int >= total - offset {
                    total - offset
                } else {
                    count as int
                };
                views_of(ms@) == decoded_msgs(
                    rows.subrange(total - offset - cnt, total - offset),
                    self.master_key@,
                )
            },
    {
        let idx = match store.find_conv(contact_uuid) {
            Some(i) => i,
            None => {
                return None;
            },
        };
        proof {
            lemma_conv_at(store@, idx as int);
        }
        let conversation_rows = &store.conversations[idx].rows;
        let total = conversation_rows.len();
        if offset >= total {
            return None;
        }
        let cnt = if count >= total - offset {
            total - offset
        } else {
            count
        };
        let start = total - offset - cnt;
        let ghost window = views_of(conversation_rows@).subrange(
            start as int,
            start as int + cnt as int,
        );
        let mut out: Vec<Message> = Vec::new();
        for j in 0..cnt
            invariant
                self.wf(),
                cnt <= total - offset,
                start == total - offset - cnt,
                total == conversation_rows@.len(),
                window == views_of(conversation_rows@).subrange(
                    start as int,
                    start as int + cnt as int,
                ),
                window.len() == cnt,
                views_of(out@) == decoded_msgs(window.take(j as int), self.master_key@),
        {
            let ghost prefix = window.take(j as int);
            let ghost out_before = views_of(out@);
            match self.open_msg_row(&conversation_rows[start + j]) {
                Some(m) => {
                    let ghost mv = m@;
                    out.push(m);
                    proof {
                        assert(views_of(out@) =~= out_before.push(mv));
                    }
                },
                None => {},
            }
            proof {
                assert(window.take(j + 1).drop_last() =~= prefix);
                assert(window.take(j + 1).last() == window[j as int]);
                assert(window[j as int] == views_of(conversation_rows@)[start + j]);
            }
        }
        proof {
            assert(window.take(cnt as int) =~= window);
            assert(conv_rows(store@, contact_uuid@) == views_of(conversation_rows@));
        }
        Some(out)
    }

    /// Drop a contact's message log and delete the file rows it owns.
    pub fn delete_conversation(&self, store: &mut Store, contact_uuid: &[u8]) -> (r: Result<
        usize,
        StoreError,
    >)
        requires
            old(store).wf(),
        ensures
            final(store).wf(),
            final(store)@.main == old(store)@.main,
            final(store)@.contacts == old(store)@.contacts,
            final(store)@.avatars == old(store)@.avatars,
            old(store)@.files is None ==> final(store)@.files is None,
            old(store)@.files is Some ==> final(store)@.files == Some(
                files_without_owner(old(store)@.files->0, contact_uuid@),
            ),
            final(store)@.conversations == convs_without(
                old(store)@.conversations,
                contact_uuid@,
            ),
            r == Ok::<usize, StoreError>(0),
    {
        match &mut store.files {
            None => {},
            Some(rows) => {
                let ghost all: Seq<FileRowV> = views_of(rows@);
                let n = rows.len();
                let mut kept: Vec<FileRow> = Vec::new();
                for i in 0..n
                    invariant
                        n == rows@.len(),
                        all == views_of(rows@),
                        views_of(kept@) == files_without_owner(
                            all.take(i as int),
                            contact_uuid@,
                        ),
                {
                    let ghost prefix = all.take(i as int);
                    let ghost kept_before = views_of(kept@);
                    let keep = match &rows[i].contact_uuid {
                        Some(cu) => !bytes_eq(cu.as_slice(), contact_uuid),
                        None => true,
                    };
                    if keep {
                        let copied = clone_file_row(&rows[i]);
                        let ghost cv = copied@;
                        kept.push(copied);
                        proof {
                            assert(views_of(kept@) =~= kept_before.push(cv));
                        }
                    }
                    proof {
                        assert(all.take(i + 1).drop_last() =~= prefix);
                        assert(all.take(i + 1).last() == all[i as int]);
                    }
                }
                proof {
                    assert(all.take(n as int) =~= all);
                }
                *rows = kept;
            },
        }
        let ghost convs1 = old(store)@.conversations;
        match store.find_conv(contact_uuid) {
            Some(i) => {
                proof {
                    lemma_convs_without_remove(convs1, contact_uuid@, i as int);
                }
                let ghost before = store@.conversations;
                store.conversations.remove(i);
                proof {
                    assert(views_of(store.conversations@) =~= before.remove(i as int));
                    lemma_convs_without_distinct(convs1, contact_uuid@);
                }
            },
            None => {
                proof {
                    assert forall|j: int|
                        0 <= j < convs1.len() implies (#[trigger] convs1[j]).contact_uuid
                        != contact_uuid@ by {
                        assert(!has_conv(old(store)@, contact_uuid@));
                    }
                    lemma_convs_without_absent(convs1, contact_uuid@);
                }
            },
        }
        Ok(0)
    }
}

/// The stored file a sealed uuid names, under a master key: the first row
/// whose sealed uuid opens to the wanted bytes and whose payload opens too.
pub open spec fn file_lookup(rows: Seq<FileRowV>, uuid: Seq<u8>, key: Seq<u8>) -> Option<Seq<u8>>
    decreases rows.len(),
{
    if rows.len() == 0 {
        None
    } else {
        let u_r = decrypt_spec(rows.first().uuid_ct, key);
        let d_r = decrypt_spec(rows.first().data_ct, key);
        if u_r == Ok::<Seq<u8>, CryptoError>(uuid) && d_r is Ok {
            Some(d_r->Ok_0)
        } else {
            file_lookup(rows.drop_first(), uuid, key)
        }
    }
}

/// The stored avatar a plaintext uuid names, under a master key: the first
/// row with that uuid decides, whether or not its payload opens.
pub open spec fn avatar_lookup(rows: Seq<AvatarRowV>, uuid: Seq<u8>, key: Seq<u8>) -> Option<
    Seq<u8>,
>
    decreases rows.len(),
{
    if rows.len() == 0 {
        None
    } else if rows.first().uuid == uuid {
        match decrypt_spec(rows.first().data_ct, key) {
            Ok(d) => Some(d),
            Err(_) => None,
        }
    } else {
        avatar_lookup(rows.drop_first(), uuid, key)
    }
}

impl Identity {
    /// Delete a contact: drop its message log, delete the file rows it
    /// owns, then delete its contact rows. Fails with `NotFound` when no
    /// contacts table exists; the log and file rows are gone either way.
    pub fn remove_contact(&self, store: &mut Store, uuid: &[u8]) -> (r: Result<usize, StoreError>)
        requires
            old(store).wf(),
        ensures
            final(store).wf(),
            final(store)@.main == old(store)@.main,
            final(store)@.avatars == old(store)@.avatars,
            old(store)@.files is None ==> final(store)@.files is None,
            old(store)@.files is Some ==> final(store)@.files == Some(
                files_without_owner(old(store)@.files->0, uuid@),
            ),
            final(store)@.conversations == convs_without(old(store)@.conversations, uuid@),
            (r is Ok) == (old(store)@.contacts is Some),
            r matches Err(e) ==> e == StoreError::NotFound && final(store)@.contacts == old(
                store,
            )@.contacts,
            r is Ok ==> final(store)@.contacts == Some(
                contacts_without(old(store)@.contacts->0, uuid@),
            ) && r->Ok_0 as nat == count_with_uuid(old(store)@.contacts->0, uuid@),
    {
        let removed = self.delete_conversation(store, uuid);
        match removed {
            Ok(_) => {},
            Err(_) => {
                proof {
                    assert(false);
                }
            },
        }
        match &mut store.contacts {
            None => Err(StoreError::NotFound),
            Some(rows) => {
                let ghost all: Seq<ContactRowV> = views_of(rows@);
                let n = rows.len();
                let mut kept: Vec<ContactRow> = Vec::new();
                let mut count: usize = 0;
                for i in 0..n
                    invariant
                        n == rows@.len(),
                        all == views_of(rows@),
                        count <= i,
                        count as nat == count_with_uuid(all.take(i as int), uuid@),
                        views_of(kept@) == contacts_without(all.take(i as int), uuid@),
                {
                    let ghost prefix = all.take(i as int);
                    let ghost kept_before = views_of(kept@);
                    if bytes_eq(rows[i].uuid.as_slice(), uuid) {
                        count += 1;
                    } else {
                        let copied = clone_contact_row(&rows[i]);
                        let ghost cv = copied@;
                        kept.push(copied);
                        proof {
                            assert(views_of(kept@) =~= kept_before.push(cv));
                        }
                    }
                    proof {
                        assert(all.take(i + 1).drop_last() =~= prefix);
                        assert(all.take(i + 1).last() == all[i as int]);
                    }
                }
                proof {
                    assert(all.take(n as int) =~= all);
                }
                *rows = kept;
                Ok(count)
            },
        }
    }

    /// Store a file under a fresh random uuid, the uuid and contents both
    /// sealed, the owning contact in plaintext (or none, for a transient
    /// file). The new row opens back to the returned uuid and the data.
    pub fn store_file(&self, store: &mut Store, contact_uuid: Option<Vec<u8>>, data: &[u8]) -> (r:
        Result<Vec<u8>, StoreError>)
        requires
            self.wf(),
            old(store).wf(),
            data@.len() <= AEAD_PLAINTEXT_MAX,
        ensures
            final(store).wf(),
            final(store)@.main == old(store)@.main,
            final(store)@.contacts == old(store)@.contacts,
            final(store)@.avatars == old(store)@.avatars,
            final(store)@.conversations == old(store)@.conversations,
            r is Ok,
            final(store)@.files is Some,
            r matches Ok(uuid) ==> {
                let old_rows = if old(store)@.files is Some {
                    old(store)@.files->0
                } else {
                    Seq::<FileRowV>::empty()
                };
                let new_rows = final(store)@.files->0;
                &&& new_rows.len() == old_rows.len() + 1
                &&& new_rows.drop_last() == old_rows
                &&& new_rows.last().contact_uuid == opt_bytes_view(contact_uuid)
                &&& decrypt_spec(new_rows.last().uuid_ct, self.master_key@) == Ok::<
                    Seq<u8>,
                    CryptoError,
                >(uuid@)
                &&& decrypt_spec(new_rows.last().data_ct, self.master_key@) == Ok::<
                    Seq<u8>,
                    CryptoError,
                >(data@)
                &&& uuid@.len() == 16
            },
    {
        let file_uuid = generate_uuid();
        let row = FileRow {
            contact_uuid: clone_opt_bytes(&contact_uuid),
            uuid_ct: self.seal_field(file_uuid.as_slice()),
            data_ct: self.seal_field(data),
        };
        let ghost row_v = row@;
        if store.files.is_none() {
            store.files = Some(Vec::new());
        }
        match &mut store.files {
            Some(rows) => {
                let ghost before = views_of(rows@);
                rows.push(row);
                proof {
                    assert(views_of(rows@) =~= before.push(row_v));
                }
            },
            None => {
                proof {
                    assert(false);
                }
            },
        }
        proof {
            if old(store)@.files is Some {
                assert(final(store)@.files->0.drop_last() =~= old(store)@.files->0);
            } else {
                assert(final(store)@.files->0.drop_last() =~= Seq::<FileRowV>::empty());
            }
        }
        Ok(file_uuid)
    }

    /// Find a stored file by its sealed uuid: scan every row, open its
    /// sealed uuid, and on the first match return the opened contents.
    pub fn load_file(&self, store: &Store, uuid: &[u8]) -> (r: Option<Vec<u8>>)
        requires
            self.wf(),
        ensures
            store@.files is None ==> r is None,
            store@.files matches Some(rows) ==> {
                &&& (r is Some) == (file_lookup(rows, uuid@, self.master_key@) is Some)
                &&& (r matches Some(d) ==> file_lookup(rows, uuid@, self.master_key@) == Some(d@))
            },
    {
        match &store.files {
            None => None,
            Some(rows) => {
                let ghost all: Seq<FileRowV> = views_of(rows@);
                let n = rows.len();
                proof {
                    assert(all.skip(0) =~= all);
                }
                for i in 0..n
                    invariant
                        self.wf(),
                        n == rows@.len(),
                        all == views_of(rows@),
                        store@.files == Some(all),
                        file_lookup(all, uuid@, self.master_key@) == file_lookup(
                            all.skip(i as int),
                            uuid@,
                            self.master_key@,
                        ),
                {
                    proof {
                        assert(all[i as int] == rows@[i as int]@);
                        assert(all.skip(i as int).first() == all[i as int]);
                        assert(all.skip(i as int).drop_first() =~= all.skip(i + 1));
                    }
                    match decrypt_data(rows[i].uuid_ct.as_slice(), self.master_key.as_slice()) {
                        Ok(row_uuid) => {
                            if bytes_eq(row_uuid.as_slice(), uuid) {
                                match decrypt_data(
                                    rows[i].data_ct.as_slice(),
                                    self.master_key.as_slice(),
                                ) {
                                    Ok(data) => {
                                        return Some(data);
                                    },
                                    Err(_) => {},
                                }
                            }
                        },
                        Err(_) => {},
                    }
                }
                proof {
                    assert(all.skip(n as int) =~= Seq::<FileRowV>::empty());
                }
                None
            },
        }
    }

    /// Store an avatar under a fresh random uuid, the uuid plain and the
    /// picture sealed. The new row opens back to the data.
    pub fn store_avatar(&self, store: &mut Store, avatar: &[u8]) -> (r: Result<Vec<u8>, StoreError>)
        requires
            self.wf(),
            old(store).wf(),
            avatar@.len() <= AEAD_PLAINTEXT_MAX,
        ensures
            final(store).wf(),
            final(store)@.main == old(store)@.main,
            final(store)@.contacts == old(store)@.contacts,
            final(store)@.files == old(store)@.files,
            final(store)@.conversations == old(store)@.conversations,
            r is Ok,
            final(store)@.avatars is Some,
            r matches Ok(uuid) ==> {
                let old_rows = if old(store)@.avatars is Some {
                    old(store)@.avatars->0
                } else {
                    Seq::<AvatarRowV>::empty()
                };
                let new_rows = final(store)@.avatars->0;
                &&& new_rows.len() == old_rows.len() + 1
                &&& new_rows.drop_last() == old_rows
                &&& new_rows.last().uuid == uuid@
                &&& decrypt_spec(new_rows.last().data_ct, self.master_key@) == Ok::<
                    Seq<u8>,
                    CryptoError,
                >(avatar@)
                &&& uuid@.len() == 16
            },
    {
        let avatar_uuid = generate_uuid();
        let row = AvatarRow {
            uuid: clone_bytes(&avatar_uuid),
            data_ct: self.seal_field(avatar),
        };
        let ghost row_v = row@;
        if store.avatars.is_none() {
            store.avatars = Some(Vec::new());
        }
        match &mut store.avatars {
            Some(rows) => {
                let ghost before = views_of(rows@);
                rows.push(row);
                proof {
                    assert(views_of(rows@) =~= before.push(row_v));
                }
            },
            None => {
                proof {
                    assert(false);
                }
            },
        }
        proof {
            if old(store)@.avatars is Some {
                assert(final(store)@.avatars->0.drop_last() =~= old(store)@.avatars->0);
            } else {
                assert(final(store)@.avatars->0.drop_last() =~= Seq::<AvatarRowV>::empty());
            }
        }
        Ok(avatar_uuid)
    }

    /// Read an avatar by its plaintext uuid: the first row with that uuid
    /// decides, and its sealed picture must open.
    pub fn get_avatar(&self, store: &Store, avatar_uuid: &[u8]) -> (r: Option<Vec<u8>>)
        requires
            self.wf(),
        ensures
            store@.avatars is None ==> r is None,
            store@.avatars matches Some(rows) ==> {
                &&& (r is Some) == (avatar_lookup(rows, avatar_uuid@, self.master_key@) is Some)
                &&& (r matches Some(d) ==> avatar_lookup(rows, avatar_uuid@, self.master_key@)
                    == Some(d@))
            },
    {
        match &store.avatars {
            None => None,
            Some(rows) => {
                let ghost all: Seq<AvatarRowV> = views_of(rows@);
                let n = rows.len();
                proof {
                    assert(all.skip(0) =~= all);
                }
                for i in 0..n
                    invariant
                        self.wf(),
                        n == rows@.len(),
                        all == views_of(rows@),
                        store@.avatars == Some(all),
                        avatar_lookup(all, avatar_uuid@, self.master_key@) == avatar_lookup(
                            all.skip(i as int),
                            avatar_uuid@,
                            self.master_key@,
                        ),
                {
                    proof {
                        assert(all[i as int] == rows@[i as int]@);
                        assert(all.skip(i as int).first() == all[i as int]);
                        assert(all.skip(i as int).drop_first() =~= all.skip(i + 1));
                    }
                    if bytes_eq(rows[i].uuid.as_slice(), avatar_uuid) {
                        return match decrypt_data(
                            rows[i].data_ct.as_slice(),
                            self.master_key.as_slice(),
                        ) {
                            Ok(data) => Some(data),
                            Err(_) => None,
                        };
                    }
                }
                proof {
                    assert(all.skip(n as int) =~= Seq::<AvatarRowV>::empty());
                }
                None
            },
        }
    }
}

fn find_first_avatar(rows: &Vec<ContactRow>, uuid: &[u8]) -> (r: Option<Vec<u8>>)
    ensures
        opt_bytes_view(r) == first_contact_avatar(views_of(rows@), uuid@),
{
    let ghost all: Seq<ContactRowV> = views_of(rows@);
    let n = rows.len();
    proof {
        assert(all.skip(0) =~= all);
    }
    for i in 0..n
        invariant
            n == rows@.len(),
            all == views_of(rows@),
            first_contact_avatar(all, uuid@) == first_contact_avatar(all.skip(i as int), uuid@),
    {
        proof {
            assert(all[i as int] == rows@[i as int]@);
            assert(all.skip(i as int).first() == all[i as int]);
            assert(all.skip(i as int).drop_first() =~= all.skip(i + 1));
        }
        if bytes_eq(rows[i].uuid.as_slice(), uuid) {
            return clone_opt_bytes(&rows[i].avatar);
        }
    }
    proof {
        assert(all.skip(n as int) =~= Seq::<ContactRowV>::empty());
    }
    None
}

fn contacts_reference(rows: &Vec<ContactRow>, uuid: &[u8]) -> (r: bool)
    ensures
        r == contact_refs(views_of(rows@), uuid@),
{
    let ghost all: Seq<ContactRowV> = views_of(rows@);
    let n = rows.len();
    for j in 0..n
        invariant
            n == rows@.len(),
            all == views_of(rows@),
            forall|k: int| 0 <= k < j ==> (#[trigger] all[k]).avatar != Some(uuid@),
    {
        proof {
            assert(all[j as int] == rows@[j as int]@);
        }
        match &rows[j].avatar {
            Some(a) => {
                if bytes_eq(a.as_slice(), uuid) {
                    proof {
                        assert(all[j as int].avatar == Some(uuid@));
                    }
                    return true;
                }
            },
            None => {},
        }
    }
    false
}

impl Identity {
    /// Point a contact at an avatar, or clear the pointer: with a uuid, the
    /// plaintext pointer of every row of the contact is overwritten; with
    /// none, the avatar row the contact pointed at is deleted first and the
    /// pointer then cleared. Fails with `NotFound` when a table the
    /// operation touches does not exist.
    pub fn set_contact_avatar(
        &self,
        store: &mut Store,
        contact_uuid: &[u8],
        avatar_uuid: Option<&[u8]>,
    ) -> (r: Result<usize, StoreError>)
        requires
            old(store).wf(),
            avatar_uuid matches Some(a) ==> a@.len() == 16,
        ensures
            final(store).wf(),
            final(store)@.main == old(store)@.main,
            final(store)@.files == old(store)@.files,
            final(store)@.conversations == old(store)@.conversations,
            r matches Err(e) ==> e == StoreError::NotFound && final(store)@ == old(store)@,
            avatar_uuid matches Some(av) ==> {
                &&& (r is Ok) == (old(store)@.contacts is Some)
                &&& final(store)@.avatars == old(store)@.avatars
                &&& (r is Ok ==> {
                    let rows1 = old(store)@.contacts->0;
                    let rows2 = final(store)@.contacts->0;
                    &&& final(store)@.contacts is Some
                    &&& rows2.len() == rows1.len()
                    &&& (forall|i: int|
                        0 <= i < rows1.len() && rows1[i].uuid != contact_uuid@ ==> rows2[i]
                            == rows1[i])
                    &&& (forall|i: int|
                        0 <= i < rows1.len() && rows1[i].uuid == contact_uuid@ ==> {
                            &&& (#[trigger] rows2[i]).uuid == rows1[i].uuid
                            &&& rows2[i].name_ct == rows1[i].name_ct
                            &&& rows2[i].key_ct == rows1[i].key_ct
                            &&& rows2[i].verified_ct == rows1[i].verified_ct
                            &&& rows2[i].seen_ct == rows1[i].seen_ct
                            &&& rows2[i].avatar == Some(av@)
                        })
                    &&& r->Ok_0 as nat == count_with_uuid(rows1, contact_uuid@)
                })
            },
            avatar_uuid is None ==> {
                &&& (r is Ok) == (old(store)@.contacts is Some && old(store)@.avatars is Some)
                &&& (r is Ok ==> {
                    let rows1 = old(store)@.contacts->0;
                    let rows2 = final(store)@.contacts->0;
                    &&& final(store)@.contacts is Some
                    &&& rows2.len() == rows1.len()
                    &&& (forall|i: int|
                        0 <= i < rows1.len() && rows1[i].uuid != contact_uuid@ ==> rows2[i]
                            == rows1[i])
                    &&& (forall|i: int|
                        0 <= i < rows1.len() && rows1[i].uuid == contact_uuid@ ==> {
                            &&& (#[trigger] rows2[i]).uuid == rows1[i].uuid
                            &&& rows2[i].name_ct == rows1[i].name_ct
                            &&& rows2[i].key_ct == rows1[i].key_ct
                            &&& rows2[i].verified_ct == rows1[i].verified_ct
                            &&& rows2[i].seen_ct == rows1[i].seen_ct
                            &&& rows2[i].avatar is None
                        })
                    &&& final(store)@.avatars == Some(
                        match first_contact_avatar(rows1, contact_uuid@) {
                            Some(a) => avatars_without(old(store)@.avatars->0, a),
                            None => old(store)@.avatars->0,
                        },
                    )
                    &&& r->Ok_0 as nat == count_with_uuid(rows1, contact_uuid@)
                })
            },
    {
        match avatar_uuid {
            Some(av) => {
                match &mut store.contacts {
                    None => Err(StoreError::NotFound),
                    Some(rows) => {
                        let ghost rows1: Seq<ContactRowV> = views_of(rows@);
                        let n = rows.len();
                        let mut count: usize = 0;
                        for i in 0..n
                            invariant
                                n == rows@.len(),
                                rows1.len() == n,
                                count <= i,
                                count as nat == count_with_uuid(rows1.take(i as int), contact_uuid@),
                                av@.len() == 16,
                                forall|j: int| i <= j < n ==> views_of(rows@)[j] == rows1[j],
                                forall|j: int|
                                    0 <= j < i && rows1[j].uuid != contact_uuid@
                                        ==> views_of(rows@)[j] == rows1[j],
                                forall|j: int|
                                    0 <= j < i && rows1[j].uuid == contact_uuid@ ==> {
                                        &&& (#[trigger] views_of(rows@)[j]).uuid == rows1[j].uuid
                                        &&& views_of(rows@)[j].name_ct == rows1[j].name_ct
                                        &&& views_of(rows@)[j].key_ct == rows1[j].key_ct
                                        &&& views_of(rows@)[j].verified_ct == rows1[j].verified_ct
                                        &&& views_of(rows@)[j].seen_ct == rows1[j].seen_ct
                                        &&& views_of(rows@)[j].avatar == Some(av@)
                                    },
                        {
                            let ghost prefix = rows1.take(i as int);
                            let ghost entry_rows = rows@;
                            if bytes_eq(rows[i].uuid.as_slice(), contact_uuid) {
                                let new_row = ContactRow {
                                    uuid: clone_bytes(&rows[i].uuid),
                                    name_ct: clone_bytes(&rows[i].name_ct),
                                    avatar: Some(slice_to_vec(av)),
                                    key_ct: clone_bytes(&rows[i].key_ct),
                                    verified_ct: clone_bytes(&rows[i].verified_ct),
                                    seen_ct: clone_bytes(&rows[i].seen_ct),
                                };
                                let ghost new_row_v = new_row@;
                                rows.set(i, new_row);
                                count += 1;
                                proof {
                                    assert forall|j: int|
                                        0 <= j < n && j != i implies (#[trigger] views_of(
                                        rows@,
                                    )[j]) == views_of(entry_rows)[j] by {
                                        assert(rows@[j] == entry_rows[j]);
                                    }
                                    assert(views_of(rows@)[i as int] == new_row_v);
                                    assert(views_of(entry_rows)[i as int] == rows1[i as int]);
                                }
                            } else {
                                proof {
                                    assert forall|j: int|
                                        0 <= j < n implies (#[trigger] views_of(rows@)[j])
                                        == views_of(entry_rows)[j] by {
                                        assert(rows@[j] == entry_rows[j]);
                                    }
                                }
                            }
                            proof {
                                assert(rows1.take(i + 1).drop_last() =~= prefix);
                                assert(rows1.take(i + 1).last() == rows1[i as int]);
                            }
                        }
                        proof {
                            assert(rows1.take(n as int) =~= rows1);
                        }
                        Ok(count)
                    },
                }
            },
            None => {
                if store.contacts.is_none() {
                    return Err(StoreError::NotFound);
                }
                if store.avatars.is_none() {
                    return Err(StoreError::NotFound);
                }
                let target: Option<Vec<u8>> = match &store.contacts {
                    Some(rows) => find_first_avatar(rows, contact_uuid),
                    None => {
                        proof {
                            assert(false);
                        }
                        None
                    },
                };
                match &target {
                    Some(av) => {
                        let new_avatars: Vec<AvatarRow> = match &store.avatars {
                            Some(avs) => {
                                let ghost all: Seq<AvatarRowV> = views_of(avs@);
                                let n = avs.len();
                                let mut kept: Vec<AvatarRow> = Vec::new();
                                for i in 0..n
                                    invariant
                                        n == avs@.len(),
                                        all == views_of(avs@),
                                        views_of(kept@) == avatars_without(
                                            all.take(i as int),
                                            av@,
                                        ),
                                {
                                    let ghost prefix = all.take(i as int);
                                    let ghost kept_before = views_of(kept@);
                                    proof {
                                        assert(all[i as int] == avs@[i as int]@);
                                    }
                                    if !bytes_eq(avs[i].uuid.as_slice(), av.as_slice()) {
                                        let copied = clone_avatar_row(&avs[i]);
                                        let ghost cv = copied@;
                                        kept.push(copied);
                                        proof {
                                            assert(views_of(kept@) =~= kept_before.push(cv));
                                        }
                                    }
                                    proof {
                                        assert(all.take(i + 1).drop_last() =~= prefix);
                                        assert(all.take(i + 1).last() == all[i as int]);
                                    }
                                }
                                proof {
                                    assert(all.take(n as int) =~= all);
                                }
                                kept
                            },
                            None => {
                                proof {
                                    assert(false);
                                }
                                Vec::new()
                            },
                        };
                        store.avatars = Some(new_avatars);
                    },
                    None => {},
                }
                match &mut store.contacts {
                    None => {
                        proof {
                            assert(false);
                        }
                        Err(StoreError::NotFound)
                    },
                    Some(rows) => {
                        let ghost rows1: Seq<ContactRowV> = views_of(rows@);
                        let n = rows.len();
                        let mut count: usize = 0;
                        for i in 0..n
                            invariant
                                n == rows@.len(),
                                rows1.len() == n,
                                count <= i,
                                count as nat == count_with_uuid(rows1.take(i as int), contact_uuid@),
                                forall|j: int| i <= j < n ==> views_of(rows@)[j] == rows1[j],
                                forall|j: int|
                                    0 <= j < i && rows1[j].uuid != contact_uuid@
                                        ==> views_of(rows@)[j] == rows1[j],
                                forall|j: int|
                                    0 <= j < i && rows1[j].uuid == contact_uuid@ ==> {
                                        &&& (#[trigger] views_of(rows@)[j]).uuid == rows1[j].uuid
                                        &&& views_of(rows@)[j].name_ct == rows1[j].name_ct
                                        &&& views_of(rows@)[j].key_ct == rows1[j].key_ct
                                        &&& views_of(rows@)[j].verified_ct == rows1[j].verified_ct
                                        &&& views_of(rows@)[j].seen_ct == rows1[j].seen_ct
                                        &&& views_of(rows@)[j].avatar is None
                                    },
                        {
                            let ghost prefix = rows1.take(i as int);
                            let ghost entry_rows = rows@;
                            if bytes_eq(rows[i].uuid.as_slice(), contact_uuid) {
                                let new_row = ContactRow {
                                    uuid: clone_bytes(&rows[i].uuid),
                                    name_ct: clone_bytes(&rows[i].name_ct),
                                    avatar: None,
                                    key_ct: clone_bytes(&rows[i].key_ct),
                                    verified_ct: clone_bytes(&rows[i].verified_ct),
                                    seen_ct: clone_bytes(&rows[i].seen_ct),
                                };
                                let ghost new_row_v = new_row@;
                                rows.set(i, new_row);
                                count += 1;
                                proof {
                                    assert forall|j: int|
                                        0 <= j < n && j != i implies (#[trigger] views_of(
                                        rows@,
                                    )[j]) == views_of(entry_rows)[j] by {
                                        assert(rows@[j] == entry_rows[j]);
                                    }
                                    assert(views_of(rows@)[i as int] == new_row_v);
                                    assert(views_of(entry_rows)[i as int] == rows1[i as int]);
                                }
                            } else {
                                proof {
                                    assert forall|j: int|
                                        0 <= j < n implies (#[trigger] views_of(rows@)[j])
                                        == views_of(entry_rows)[j] by {
                                        assert(rows@[j] == entry_rows[j]);
                                    }
                                }
                            }
                            proof {
                                assert(rows1.take(i + 1).drop_last() =~= prefix);
                                assert(rows1.take(i + 1).last() == rows1[i as int]);
                            }
                        }
                        proof {
                            assert(rows1.take(n as int) =~= rows1);
                        }
                        Ok(count)
                    },
                }
            },
        }
    }

    /// Throw away what nothing refers to any more: file rows no contact
    /// owns and avatar rows no contact points at. With no contacts table at
    /// all, the file and avatar tables are dropped entirely.
    pub fn clear_cache(&self, store: &mut Store) -> (r: Result<(), StoreError>)
        requires
            old(store).wf(),
        ensures
            final(store).wf(),
            final(store)@.main == old(store)@.main,
            final(store)@.contacts == old(store)@.contacts,
            final(store)@.conversations == old(store)@.conversations,
            r == Ok::<(), StoreError>(()),
            old(store)@.contacts is None ==> final(store)@.files is None
                && final(store)@.avatars is None,
            old(store)@.contacts is Some ==> {
                &&& (old(store)@.files is None ==> final(store)@.files is None)
                &&& (old(store)@.files is Some ==> final(store)@.files == Some(
                    files_owned_only(old(store)@.files->0),
                ))
                &&& (old(store)@.avatars is None ==> final(store)@.avatars is None)
                &&& (old(store)@.avatars is Some ==> final(store)@.avatars == Some(
                    avatars_referenced(old(store)@.avatars->0, old(store)@.contacts->0),
                ))
            },
    {
        if store.contacts.is_none() {
            store.files = None;
            store.avatars = None;
            return Ok(());
        }
        let new_files: Option<Vec<FileRow>> = match &store.files {
            None => None,
            Some(rows) => {
                let ghost all: Seq<FileRowV> = views_of(rows@);
                let n = rows.len();
                let mut kept: Vec<FileRow> = Vec::new();
                for i in 0..n
                    invariant
                        n == rows@.len(),
                        all == views_of(rows@),
                        views_of(kept@) == files_owned_only(all.take(i as int)),
                {
                    let ghost prefix = all.take(i as int);
                    let ghost kept_before = views_of(kept@);
                    proof {
                        assert(all[i as int] == rows@[i as int]@);
                    }
                    let keep = match &rows[i].contact_uuid {
                        Some(_) => true,
                        None => false,
                    };
                    if keep {
                        let copied = clone_file_row(&rows[i]);
                        let ghost cv = copied@;
                        kept.push(copied);
                        proof {
                            assert(views_of(kept@) =~= kept_before.push(cv));
                        }
                    }
                    proof {
                        assert(all.take(i + 1).drop_last() =~= prefix);
                        assert(all.take(i + 1).last() == all[i as int]);
                    }
                }
                proof {
                    assert(all.take(n as int) =~= all);
                }
                Some(kept)
            },
        };
        match new_files {
            Some(v) => {
                store.files = Some(v);
            },
            None => {},
        }
        let new_avatars: Option<Vec<AvatarRow>> = match (&store.avatars, &store.contacts) {
            (None, _) => None,
            (Some(avs), Some(cts)) => {
                let ghost all: Seq<AvatarRowV> = views_of(avs@);
                let ghost cviews: Seq<ContactRowV> = views_of(cts@);
                let n = avs.len();
                let mut kept: Vec<AvatarRow> = Vec::new();
                for i in 0..n
                    invariant
                        n == avs@.len(),
                        all == views_of(avs@),
                        cviews == views_of(cts@),
                        views_of(kept@) == avatars_referenced(all.take(i as int), cviews),
                {
                    let ghost prefix = all.take(i as int);
                    let ghost kept_before = views_of(kept@);
                    proof {
                        assert(all[i as int] == avs@[i as int]@);
                    }
                    if contacts_reference(cts, avs[i].uuid.as_slice()) {
                        let copied = clone_avatar_row(&avs[i]);
                        let ghost cv = copied@;
                        kept.push(copied);
                        proof {
                            assert(views_of(kept@) =~= kept_before.push(cv));
                        }
                    }
                    proof {
                        assert(all.take(i + 1).drop_last() =~= prefix);
                        assert(all.take(i + 1).last() == all[i as int]);
                    }
                }
                proof {
                    assert(all.take(n as int) =~= all);
                }
                Some(kept)
            },
            (Some(_), None) => {
                proof {
                    assert(false);
                }
                None
            },
        };
        match new_avatars {
            Some(v) => {
                store.avatars = Some(v);
            },
            None => {},
        }
        Ok(())
    }
}

} // verus!
