use crate::codec;
use crate::crypto;
use crate::error::{PwdError, PwdResult};
use crate::password::{Entry, EntryView, PasswordError};
use crate::rng;
use crate::security::{SecString, SecVec};
use vstd::bytes::{
    lemma_auto_spec_u32_to_from_le_bytes, spec_u32_from_le_bytes, spec_u32_to_le_bytes,
    u32_from_le_bytes, u32_to_le_bytes,
};
use vstd::prelude::*;
use vstd::slice::{slice_subrange, slice_to_vec};
use vstd::utf8::encode_utf8;

verus! {

/// Salt length, in bytes.
pub const SALT_SIZE: usize = 32;

/// Derived-key length, in bytes; fixed regardless of the cost parameters.
pub const KEY_SIZE: usize = 32;

/// Nonce length, in bytes.
pub const NONCE_SIZE: usize = 12;

/// Total length of the fixed-width header fields: cost exponent (1),
/// block-size factor (4), parallelism factor (4), nonce (12), salt (32).
pub const HEADER_SIZE: usize = 53;

/// Default cost exponent for fresh vaults.
pub const SCRYPT_LOGN: u8 = 12;

/// Default block-size factor for fresh vaults.
pub const SCRYPT_R: u32 = 8;

/// Default parallelism factor for fresh vaults.
pub const SCRYPT_P: u32 = 1;

/// The view of one schema group: its name and the views of its entries in
/// display order.
pub type GroupView = (Seq<char>, Seq<EntryView>);

/// The view of a schema: the groups in insertion order.
pub type SchemaView = Seq<GroupView>;

/// Group names are pairwise distinct.
pub open spec fn schema_names_unique(s: SchemaView) -> bool {
    forall|i: int, j: int| 0 <= i < j < s.len() ==> (#[trigger] s[i]).0 != (#[trigger] s[j]).0
}

/// The view of a vector of groups.
pub open spec fn groups_view(v: Seq<(String, Vec<Entry>)>) -> SchemaView {
    v.map_values(|g: (String, Vec<Entry>)| (g.0@, g.1@.map_values(|e: Entry| e@)))
}

/// The vault schema: credential entries grouped under a case-sensitive group
/// (service) name. Insertion order is preserved, of the groups as well as of
/// the entries within a group; an absent group is equivalent to an empty one.
pub struct VaultSchema {
    /// The groups, each a name with its entries in insertion order.
    pub passwords: Vec<(String, Vec<Entry>)>,
}

impl View for VaultSchema {
    type V = SchemaView;

    open spec fn view(&self) -> SchemaView {
        groups_view(self.passwords@)
    }
}

impl VaultSchema {
    /// Well-formed: group names are unique.
    pub open spec fn wf(&self) -> bool {
        schema_names_unique(self@)
    }

    /// Number of groups.
    pub fn len(&self) -> (r: usize)
        ensures
            r == self@.len(),
    {
        self.passwords.len()
    }
}

impl Default for VaultSchema {
    /// Creates an empty schema.
    fn default() -> (r: Self)
        ensures
            r@ == Seq::<GroupView>::empty(),
    {
        let schema = VaultSchema { passwords: Vec::new() };
        proof {
            assert(schema@ =~= Seq::<GroupView>::empty());
        }
        schema
    }
}

// ---------------------------------------------------------------------------
// The vault file header
// ---------------------------------------------------------------------------
/// The header bytes, in their exact on-disk order: cost exponent, block-size
/// factor (little endian), parallelism factor (little endian), nonce, salt.
pub open spec fn spec_header_bytes(
    logn: u8,
    r: u32,
    p: u32,
    nonce: Seq<u8>,
    salt: Seq<u8>,
) -> Seq<u8> {
    seq![logn] + spec_u32_to_le_bytes(r) + spec_u32_to_le_bytes(p) + nonce + salt
}

/// The cost exponent of a file image.
pub open spec fn spec_parse_logn(d: Seq<u8>) -> u8 {
    d[0]
}

/// The block-size factor of a file image.
pub open spec fn spec_parse_r(d: Seq<u8>) -> u32 {
    spec_u32_from_le_bytes(d.subrange(1, 5))
}

/// The parallelism factor of a file image.
pub open spec fn spec_parse_p(d: Seq<u8>) -> u32 {
    spec_u32_from_le_bytes(d.subrange(5, 9))
}

/// The nonce of a file image.
pub open spec fn spec_parse_nonce(d: Seq<u8>) -> Seq<u8> {
    d.subrange(9, 21)
}

/// The salt of a file image.
pub open spec fn spec_parse_salt(d: Seq<u8>) -> Seq<u8> {
    d.subrange(21, 53)
}

/// The ciphertext of a file image: everything after the header.
pub open spec fn spec_parse_ciphertext(d: Seq<u8>) -> Seq<u8> {
    d.subrange(53, d.len() as int)
}

/// The scrypt cost parameters stored in a vault file header.
#[derive(Debug, Clone, Copy, PartialEq, Eq, Structural)]
pub struct ScryptMetadata {
    /// log2 of the CPU/memory cost.
    pub logn: u8,
    /// Block-size factor.
    pub r: u32,
    /// Parallelism factor.
    pub p: u32,
}

/// The header of a vault file: cost parameters, nonce and salt.
#[derive(Debug, Clone)]
pub struct Metadata {
    /// The stored cost parameters.
    pub scrypt: ScryptMetadata,
    /// The per-write nonce.
    pub nonce: Vec<u8>,
    /// The key-derivation salt.
    pub salt: Vec<u8>,
}

impl Metadata {
    /// The nonce and salt have their fixed widths.
    pub open spec fn wf(&self) -> bool {
        self.nonce@.len() == NONCE_SIZE && self.salt@.len() == SALT_SIZE
    }

    /// Reads the fixed-width header fields from the start of a file image.
    /// A buffer too short for any field is a truncation failure, not a panic.
    pub fn read(d: &[u8]) -> (r: Result<Metadata, PwdError>)
        ensures
            d@.len() < HEADER_SIZE <==> (r matches Err(e) && e == PwdError::IO),
            d@.len() >= HEADER_SIZE ==> (r matches Ok(m) && m.wf() && m.scrypt.logn
                == spec_parse_logn(d@) && m.scrypt.r == spec_parse_r(d@) && m.scrypt.p
                == spec_parse_p(d@) && m.nonce@ == spec_parse_nonce(d@) && m.salt@
                == spec_parse_salt(d@)),
    {
        if d.len() < HEADER_SIZE {
            return Err(PwdError::IO);
        }
        let logn = d[0];
        let r = u32_from_le_bytes(slice_subrange(d, 1, 5));
        let p = u32_from_le_bytes(slice_subrange(d, 5, 9));
        let nonce = slice_to_vec(slice_subrange(d, 9, 21));
        let salt = slice_to_vec(slice_subrange(d, 21, 53));
        Ok(Metadata { scrypt: ScryptMetadata { logn, r, p }, nonce, salt })
    }

    /// Appends the header bytes in their on-disk order.
    pub fn write(&self, out: &mut Vec<u8>)
        requires
            self.wf(),
        ensures
            final(out)@ == old(out)@ + spec_header_bytes(
                self.scrypt.logn,
                self.scrypt.r,
                self.scrypt.p,
                self.nonce@,
                self.salt@,
            ),
    {
        out.push(self.scrypt.logn);
        let mut rb = u32_to_le_bytes(self.scrypt.r);
        out.append(&mut rb);
        let mut pb = u32_to_le_bytes(self.scrypt.p);
        out.append(&mut pb);
        let mut nb = slice_to_vec(self.nonce.as_slice());
        out.append(&mut nb);
        let mut sb = slice_to_vec(self.salt.as_slice());
        out.append(&mut sb);
        proof {
            assert(out@ =~= old(out)@ + spec_header_bytes(
                self.scrypt.logn,
                self.scrypt.r,
                self.scrypt.p,
                self.nonce@,
                self.salt@,
            ));
        }
    }
}

/// Parsing a written header recovers each field: the header layout is
/// its own inverse under the fixed widths.
pub proof fn lemma_parse_header(
    logn: u8,
    r: u32,
    p: u32,
    nonce: Seq<u8>,
    salt: Seq<u8>,
    ct: Seq<u8>,
)
    requires
        nonce.len() == NONCE_SIZE,
        salt.len() == SALT_SIZE,
    ensures
        ({
            let d = spec_header_bytes(logn, r, p, nonce, salt) + ct;
            &&& d.len() == HEADER_SIZE + ct.len()
            &&& spec_parse_logn(d) == logn
            &&& spec_parse_r(d) == r
            &&& spec_parse_p(d) == p
            &&& spec_parse_nonce(d) == nonce
            &&& spec_parse_salt(d) == salt
            &&& spec_parse_ciphertext(d) == ct
        }),
{
    lemma_auto_spec_u32_to_from_le_bytes();
    let d = spec_header_bytes(logn, r, p, nonce, salt) + ct;
    assert(d.subrange(1, 5) =~= spec_u32_to_le_bytes(r));
    assert(d.subrange(5, 9) =~= spec_u32_to_le_bytes(p));
    assert(d.subrange(9, 21) =~= nonce);
    assert(d.subrange(21, 53) =~= salt);
    assert(d.subrange(53, d.len() as int) =~= ct);
}

// ---------------------------------------------------------------------------
// The vault
// ---------------------------------------------------------------------------
/// The first index whose group has the given name, or `s.len()` when no
/// group has it.
pub open spec fn spec_group_index(s: SchemaView, group: Seq<char>) -> int
    decreases s.len(),
{
    if s.len() == 0 {
        0
    } else if s[0].0 == group {
        0
    } else {
        1 + spec_group_index(s.drop_first(), group)
    }
}

/// What [`spec_group_index`] finds: the index is in range exactly when the
/// group exists, it carries the name, and nothing before it does.
pub proof fn lemma_group_index(s: SchemaView, group: Seq<char>)
    ensures
        0 <= spec_group_index(s, group) <= s.len(),
        spec_group_index(s, group) < s.len() ==> s[spec_group_index(s, group)].0 == group,
        forall|x: int| 0 <= x < spec_group_index(s, group) ==> (#[trigger] s[x]).0 != group,
    decreases s.len(),
{
    if s.len() != 0 && s[0].0 != group {
        lemma_group_index(s.drop_first(), group);
        assert forall|x: int| 0 <= x < spec_group_index(s, group) implies (#[trigger] s[x]).0
            != group by {
            if x >= 1 {
                assert(s.drop_first()[x - 1] == s[x]);
            }
        }
    }
}

/// Appending an entry to its group: if the group exists, the entry goes to
/// the end of that group's sequence; otherwise a new singleton group is
/// appended.
pub open spec fn spec_insert_entry(s: SchemaView, group: Seq<char>, e: EntryView) -> SchemaView {
    let i = spec_group_index(s, group);
    if i < s.len() {
        s.update(i, (group, s[i].1.push(e)))
    } else {
        s.push((group, seq![e]))
    }
}

/// The mathematical content of a [`Vault`].
#[verifier::ext_equal]
pub struct VaultView {
    /// The schema's view.
    pub schema: SchemaView,
    /// The master password's characters.
    pub master_password: Seq<char>,
    /// The derived key bytes.
    pub key: Seq<u8>,
    /// The salt bytes.
    pub salt: Seq<u8>,
    /// The cost exponent.
    pub logn: u8,
    /// The block-size factor.
    pub r: u32,
    /// The parallelism factor.
    pub p: u32,
}

/// The invariant of a vault, stated of its view: the buffers have their
/// fixed widths, the key is the one scrypt derives from the master password
/// under the vault's own salt and cost parameters, those parameters are in
/// the supported range, and the schema's group names are unique.
pub open spec fn view_wf(v: VaultView) -> bool {
    &&& v.salt.len() == SALT_SIZE
    &&& v.key.len() == KEY_SIZE
    &&& v.key == crypto::scrypt_key(
        encode_utf8(v.master_password),
        v.salt,
        v.logn,
        v.r,
        v.p,
        KEY_SIZE,
    )
    &&& crypto::scrypt_params_valid(v.logn, v.r, v.p)
    &&& schema_names_unique(v.schema)
}

/// What a successful [`Vault::sync`] writes: the vault's header under some
/// nonce of the fixed width, then the schema payload sealed under the
/// vault's key with that same nonce — together with the cipher's promise
/// that this very seal opens back to the payload.
pub open spec fn spec_sync_output(v: VaultView, out: Seq<u8>) -> bool {
    exists|nonce: Seq<u8>|
        #![auto]
        {
            &&& nonce.len() == NONCE_SIZE
            &&& out == spec_header_bytes(v.logn, v.r, v.p, nonce, v.salt)
                + crypto::aes256_gcm_seal(v.key, nonce, codec::spec_enc_schema(v.schema))
            &&& crypto::aes256_gcm_open(
                v.key,
                nonce,
                crypto::aes256_gcm_seal(v.key, nonce, codec::spec_enc_schema(v.schema)),
            ) == Some(codec::spec_enc_schema(v.schema))
        }
}

/// The password vault: a schema, the master password, the key derived from
/// it, and the key-derivation inputs (salt and cost parameters). The key is
/// never persisted; only salt and parameters are written to the file header.
pub struct Vault {
    schema: VaultSchema,
    master_password: SecString,
    key: SecVec<u8>,
    salt: Vec<u8>,
    scrypt_logn: u8,
    scrypt_r: u32,
    scrypt_p: u32,
}

impl View for Vault {
    type V = VaultView;

    closed spec fn view(&self) -> VaultView {
        VaultView {
            schema: self.schema@,
            master_password: self.master_password@,
            key: self.key@,
            salt: self.salt@,
            logn: self.scrypt_logn,
            r: self.scrypt_r,
            p: self.scrypt_p,
        }
    }
}

/// The key a file image demands: derived from the password under the salt
/// and cost parameters stored in the image's header.
pub open spec fn spec_file_key(d: Seq<u8>, password: Seq<char>) -> Seq<u8> {
    crypto::scrypt_key(
        encode_utf8(password),
        spec_parse_salt(d),
        spec_parse_logn(d),
        spec_parse_r(d),
        spec_parse_p(d),
        KEY_SIZE,
    )
}

/// Whether a file image's stored cost parameters are in the supported range.
pub open spec fn spec_file_params_valid(d: Seq<u8>) -> bool {
    crypto::scrypt_params_valid(spec_parse_logn(d), spec_parse_r(d), spec_parse_p(d))
}

/// The plaintext payload that authenticated decryption recovers from a file
/// image under the given password, if verification succeeds.
pub open spec fn spec_file_open(d: Seq<u8>, password: Seq<char>) -> Option<Seq<u8>> {
    crypto::aes256_gcm_open(
        spec_file_key(d, password),
        spec_parse_nonce(d),
        spec_parse_ciphertext(d),
    )
}

/// The schema a file image holds under the given password: decrypt, then
/// decode.
pub open spec fn spec_from_file_schema(d: Seq<u8>, password: Seq<char>) -> Option<SchemaView> {
    match spec_file_open(d, password) {
        Some(pt) => codec::spec_dec_schema(pt),
        None => None,
    }
}

impl Vault {
    /// The vault's invariant; see [`view_wf`].
    pub open spec fn wf(&self) -> bool {
        view_wf(self@)
    }

    /// Creates a fresh vault: a random salt, an empty schema, the current
    /// default cost parameters, and the key derived from the given master
    /// password.
    pub fn new(master_password: &str) -> (r: Self)
        ensures
            r.wf(),
            r@.schema == Seq::<GroupView>::empty(),
            r@.master_password == master_password@,
            r@.logn == SCRYPT_LOGN,
            r@.r == SCRYPT_R,
            r@.p == SCRYPT_P,
    {
        let salt = rng::os_random_bytes(SALT_SIZE);
        proof {
            vstd::arithmetic::power2::lemma2_to64();
            assert(crypto::scrypt_params_valid(SCRYPT_LOGN, SCRYPT_R, SCRYPT_P));
        }
        let key = match crypto::scrypt_derive(
            master_password.as_bytes(),
            salt.as_slice(),
            SCRYPT_LOGN,
            SCRYPT_R,
            SCRYPT_P,
            KEY_SIZE,
        ) {
            Some(k) => k,
            None => vstd::pervasive::unreached(),
        };
        let vault = Vault {
            schema: VaultSchema { passwords: Vec::new() },
            master_password: SecString::new(master_password.to_owned()),
            key: SecVec::new(key),
            salt,
            scrypt_logn: SCRYPT_LOGN,
            scrypt_r: SCRYPT_R,
            scrypt_p: SCRYPT_P,
        };
        proof {
            assert(vault@.schema =~= Seq::<GroupView>::empty());
        }
        vault
    }

    /// Reconstructs a vault from a file image: parse the header, validate
    /// the stored cost parameters, derive the key, decrypt, decode.
    ///
    /// The outcomes, exactly: an image too short for the header is the I/O
    /// failure; cost parameters out of range, or a payload that decrypted
    /// but does not decode, is `InvalidVaultFile`; a failed decryption —
    /// wrong password, corruption or truncation of the ciphertext, never
    /// told apart — is `AuthenticationFailed`; otherwise the vault holds
    /// exactly the schema of the image.
    pub fn from_file(data: &Vec<u8>, master_password: &str) -> (r: PwdResult<Vault>)
        ensures
            (r matches Err(e) && e == PwdError::IO) <==> data@.len() < HEADER_SIZE,
            (r matches Err(e) && e == PwdError::AuthenticationFailed) <==> (data@.len()
                >= HEADER_SIZE && spec_file_params_valid(data@) && spec_file_open(
                data@,
                master_password@,
            ) is None),
            (r matches Err(e) && e == PwdError::InvalidVaultFile) <==> (data@.len()
                >= HEADER_SIZE && (!spec_file_params_valid(data@) || (spec_file_params_valid(
                data@,
            ) && spec_file_open(data@, master_password@) is Some && spec_from_file_schema(
                data@,
                master_password@,
            ) is None))),
            (r is Ok) <==> (data@.len() >= HEADER_SIZE && spec_file_params_valid(data@)
                && spec_from_file_schema(data@, master_password@) is Some),
            r matches Ok(v) ==> {
                &&& v.wf()
                &&& Some(v@.schema) == spec_from_file_schema(data@, master_password@)
                &&& v@.master_password == master_password@
                &&& v@.key == spec_file_key(data@, master_password@)
                &&& v@.salt == spec_parse_salt(data@)
                &&& v@.logn == spec_parse_logn(data@)
                &&& v@.r == spec_parse_r(data@)
                &&& v@.p == spec_parse_p(data@)
            },
    {
        let meta = match Metadata::read(data.as_slice()) {
            Ok(m) => m,
            Err(e) => {
                return Err(e);
            },
        };
        let key = match crypto::scrypt_derive(
            master_password.as_bytes(),
            meta.salt.as_slice(),
            meta.scrypt.logn,
            meta.scrypt.r,
            meta.scrypt.p,
            KEY_SIZE,
        ) {
            Some(k) => k,
            None => {
                return Err(PwdError::InvalidVaultFile);
            },
        };
        let ct = slice_to_vec(slice_subrange(data.as_slice(), HEADER_SIZE, data.len()));
        let pt = match crypto::aes_gcm_decrypt(&key, &meta.nonce, &ct) {
            Some(pt) => pt,
            None => {
                return Err(PwdError::AuthenticationFailed);
            },
        };
        let schema = match codec::decode_schema(pt.as_slice()) {
            Some(s) => s,
            None => {
                return Err(PwdError::InvalidVaultFile);
            },
        };
        Ok(
            Vault {
                schema,
                master_password: SecString::new(master_password.to_owned()),
                key: SecVec::new(key),
                salt: meta.salt,
                scrypt_logn: meta.scrypt.logn,
                scrypt_r: meta.scrypt.r,
                scrypt_p: meta.scrypt.p,
            },
        )
    }

    /// Appends `entry` to `group`, creating the group at the end of the
    /// schema if it is absent. An entry with an empty password is rejected
    /// and the vault is left unchanged; this is the only mutation-time
    /// validation.
    pub fn insert_entry(&mut self, group: &str, entry: Entry) -> (r: Result<(), PasswordError>)
        requires
            old(self).wf(),
        ensures
            final(self).wf(),
            entry@.password.len() == 0 ==> (r matches Err(e) && e == PasswordError::EmptyPassword)
                && *final(self) == *old(self),
            entry@.password.len() > 0 ==> {
                &&& r is Ok
                &&& final(self)@.schema == spec_insert_entry(old(self)@.schema, group@, entry@)
                &&& final(self)@.master_password == old(self)@.master_password
                &&& final(self)@.key == old(self)@.key
                &&& final(self)@.salt == old(self)@.salt
                &&& final(self)@.logn == old(self)@.logn
                &&& final(self)@.r == old(self)@.r
                &&& final(self)@.p == old(self)@.p
            },
    {
        if entry.password().is_empty() {
            return Err(PasswordError::EmptyPassword);
        }
        let ghost s0 = self@.schema;
        let group_name = group.to_owned();
        let n = self.schema.passwords.len();
        let mut i: usize = 0;
        while i < n
            invariant
                i <= n,
                n == self.schema.passwords.len(),
                *self == *old(self),
                old(self).wf(),
                entry@.password.len() > 0,
                forall|x: int| 0 <= x < i ==> (#[trigger] s0[x]).0 != group@,
                s0 == self@.schema,
                group_name@ == group@,
            decreases n - i,
        {
            if self.schema.passwords[i].0 == group_name {
                proof {
                    assert(s0[i as int].0 == group@);
                    lemma_group_index(s0, group@);
                    let idx = spec_group_index(s0, group@);
                    if idx < i {
                        assert(s0[idx].0 != group@);
                    }
                    if idx > i {
                        assert(s0[i as int].0 != group@);
                    }
                    assert(idx == i);
                }
                let ghost pw0 = self.schema.passwords@;
                let ghost entry_v = entry@;
                let (name, mut es) = self.schema.passwords.remove(i);
                let ghost entry_e = entry;
                es.push(entry);
                let ghost name_v = name@;
                let ghost es1 = es@;
                self.schema.passwords.insert(i, (name, es));
                proof {
                    let pw1 = self.schema.passwords@;
                    let target = s0.update(i as int, (group@, s0[i as int].1.push(entry_v)));
                    assert(name_v == group@);
                    assert(es1 =~= pw0[i as int].1@.push(entry_e));
                    assert(entry_e@ == entry_v);
                    assert(es1.map_values(|e: Entry| e@) =~= pw0[i as int].1@.map_values(
                        |e: Entry| e@,
                    ).push(entry_v));
                    assert forall|x: int| 0 <= x < pw1.len() implies #[trigger] groups_view(
                        pw1,
                    )[x] == target[x] by {
                        if x < i {
                            assert(pw1[x] == pw0.remove(i as int)[x]);
                            assert(pw0.remove(i as int)[x] == pw0[x]);
                        } else if x == i {
                            assert(pw1[x].0@ == name_v);
                            assert(pw1[x].1@ == es1);
                        } else {
                            assert(pw1[x] == pw0.remove(i as int)[x - 1]);
                            assert(pw0.remove(i as int)[x - 1] == pw0[x]);
                        }
                    }
                    assert(groups_view(pw1) =~= target);
                    assert(self@.schema == spec_insert_entry(s0, group@, entry_v));
                    assert(schema_names_unique(s0));
                    assert forall|x: int, y: int| 0 <= x < y < target.len() implies (
                    #[trigger] target[x]).0 != (#[trigger] target[y]).0 by {
                        assert(s0[x].0 != s0[y].0);
                        assert(target[x].0 == s0[x].0);
                        assert(target[y].0 == s0[y].0);
                    }
                }
                return Ok(());
            }
            i += 1;
        }
        let mut singleton: Vec<Entry> = Vec::new();
        singleton.push(entry);
        proof {
            lemma_group_index(s0, group@);
            let idx = spec_group_index(s0, group@);
            if idx < s0.len() {
                assert(s0[idx].0 != group@);
            }
            assert(idx == s0.len());
        }
        self.schema.passwords.push((group_name, singleton));
        proof {
            assert(singleton@.map_values(|e: Entry| e@) =~= seq![entry@]);
            assert(self@.schema =~= s0.push((group@, seq![entry@])));
            assert(self@.schema == spec_insert_entry(s0, group@, entry@));
            assert(schema_names_unique(self@.schema));
        }
        Ok(())
    }

    /// The vault's header for a given nonce.
    fn metadata(&self, nonce: Vec<u8>) -> (m: Metadata)
        requires
            nonce@.len() == NONCE_SIZE,
            self@.salt.len() == SALT_SIZE,
        ensures
            m.wf(),
            m.scrypt.logn == self@.logn,
            m.scrypt.r == self@.r,
            m.scrypt.p == self@.p,
            m.nonce@ == nonce@,
            m.salt@ == self@.salt,
    {
        Metadata {
            scrypt: ScryptMetadata { logn: self.scrypt_logn, r: self.scrypt_r, p: self.scrypt_p },
            nonce,
            salt: slice_to_vec(self.salt.as_slice()),
        }
    }

    /// Writes the vault into `file`, replacing its previous contents
    /// entirely: the header with a nonce drawn fresh from the secure source
    /// for this very call, then the schema payload encrypted under the
    /// vault's key. Fails, leaving `file` untouched, only when the payload
    /// exceeds the cipher's size limit.
    pub fn sync(&self, file: &mut Vec<u8>) -> (r: Result<(), PwdError>)
        requires
            self.wf(),
        ensures
            codec::schema_bounded(self@.schema),
            match r {
                Ok(()) => spec_sync_output(self@, final(file)@),
                Err(e) => e == PwdError::IO && codec::spec_enc_schema(self@.schema).len()
                    > 0x10_0000_0000 && final(file)@ == old(file)@,
            },
    {
        let nonce = rng::os_random_bytes(NONCE_SIZE);
        let payload = codec::encode_schema(&self.schema);
        let mut ct = match crypto::aes_gcm_encrypt(self.key.expose(), &nonce, &payload) {
            Some(ct) => ct,
            None => {
                return Err(PwdError::IO);
            },
        };
        let ghost noncev = nonce@;
        file.clear();
        let meta = self.metadata(nonce);
        meta.write(file);
        file.append(&mut ct);
        proof {
            assert(file@ =~= spec_header_bytes(self@.logn, self@.r, self@.p, noncev, self@.salt)
                + crypto::aes256_gcm_seal(
                self@.key,
                noncev,
                codec::spec_enc_schema(self@.schema),
            ));
            assert(spec_sync_output(self@, file@));
        }
        Ok(())
    }

    /// Read-only access to the schema.
    pub fn schema(&self) -> (r: &VaultSchema)
        ensures
            r@ == self@.schema,
    {
        &self.schema
    }
}

/// The assembled file image hands back, under the same password, exactly
/// the schema it was written from.
proof fn lemma_vault_file_round_trip(
    schema: SchemaView,
    password: Seq<char>,
    key: Seq<u8>,
    nonce: Seq<u8>,
    salt: Seq<u8>,
    logn: u8,
    r: u32,
    p: u32,
)
    requires
        nonce.len() == NONCE_SIZE,
        salt.len() == SALT_SIZE,
        key == crypto::scrypt_key(encode_utf8(password), salt, logn, r, p, KEY_SIZE),
        crypto::scrypt_params_valid(logn, r, p),
        schema_names_unique(schema),
        codec::schema_bounded(schema),
        crypto::aes256_gcm_open(
            key,
            nonce,
            crypto::aes256_gcm_seal(key, nonce, codec::spec_enc_schema(schema)),
        ) == Some(codec::spec_enc_schema(schema)),
    ensures
        ({
            let d = spec_header_bytes(logn, r, p, nonce, salt) + crypto::aes256_gcm_seal(
                key,
                nonce,
                codec::spec_enc_schema(schema),
            );
            &&& d.len() >= HEADER_SIZE
            &&& spec_file_params_valid(d)
            &&& spec_from_file_schema(d, password) == Some(schema)
        }),
{
    let ct = crypto::aes256_gcm_seal(key, nonce, codec::spec_enc_schema(schema));
    lemma_parse_header(logn, r, p, nonce, salt, ct);
    codec::lemma_schema_codec_round_trip(schema);
}

/// The full round trip: whatever byte image [`Vault::sync`] wrote for a
/// well-formed vault, reading it back under the vault's own master password
/// recovers exactly the schema it was written from — same groups, same
/// entries, same order within each group. By the contract of
/// [`Vault::from_file`], that read returns `Ok`, and the vault it builds
/// carries this very schema.
pub proof fn lemma_sync_round_trip(v: VaultView, out: Seq<u8>)
    requires
        view_wf(v),
        codec::schema_bounded(v.schema),
        spec_sync_output(v, out),
    ensures
        out.len() >= HEADER_SIZE,
        spec_file_params_valid(out),
        spec_from_file_schema(out, v.master_password) == Some(v.schema),
{
    let nonce = choose|nonce: Seq<u8>|
        #![auto]
        {
            &&& nonce.len() == NONCE_SIZE
            &&& out == spec_header_bytes(v.logn, v.r, v.p, nonce, v.salt)
                + crypto::aes256_gcm_seal(v.key, nonce, codec::spec_enc_schema(v.schema))
            &&& crypto::aes256_gcm_open(
                v.key,
                nonce,
                crypto::aes256_gcm_seal(v.key, nonce, codec::spec_enc_schema(v.schema)),
            ) == Some(codec::spec_enc_schema(v.schema))
        };
    lemma_vault_file_round_trip(
        v.schema,
        v.master_password,
        v.key,
        nonce,
        v.salt,
        v.logn,
        v.r,
        v.p,
    );
}

} // verus!
