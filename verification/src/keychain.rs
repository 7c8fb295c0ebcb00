//! The database orchestrator: the unlock pipeline from raw file bytes to
//! a decoded header and an ordered list of entry records.
//!
//! The whole pipeline is a deterministic function of the file bytes and
//! the password, written out as [`spec_unlock`]; [`V3::new`] is verified
//! against it.

use vstd::prelude::*;

verus! {

use vstd::bytes::spec_u32_from_le_bytes;
use vstd::string::StringSliceAdditionalSpecFns;
use vstd::string::StringExecFns;

use crate::UnlockError;
use crate::cursor::Cursor;
use crate::crypto::{HMAC, decrypt_block_ecb, decrypt_inplace, hmac_sha256_of, sha256, sha256_of,
    stretch, stretch_of, twofish_cbc_decrypt_of, twofish_ecb_decrypt_of};
use crate::item::{Data, DataV, FieldV, Item, Kind, RecParse, Registry, lemma_record_advances,
    parse, spec_record};

/// The 4-byte magic tag that opens every database file: `PWS3`.
pub open spec fn magic() -> Seq<u8> {
    seq![0x50u8, 0x57u8, 0x53u8, 0x33u8]
}

/// The fixed 16-byte plaintext end marker separating the ciphertext body
/// from the trailing authentication tag: `PWS3-EOFPWS3-EOF`.
pub open spec fn eof_marker() -> Seq<u8> {
    seq![
        0x50u8,
        0x57u8,
        0x53u8,
        0x33u8,
        0x2du8,
        0x45u8,
        0x4fu8,
        0x46u8,
        0x50u8,
        0x57u8,
        0x53u8,
        0x33u8,
        0x2du8,
        0x45u8,
        0x4fu8,
        0x46u8,
    ]
}

/// Whether the end marker occurs at position `i` of `s`.
pub open spec fn marker_at(s: Seq<u8>, i: nat) -> bool {
    i + 16 <= s.len() && s.subrange(i as int, (i + 16) as int) == eof_marker()
}

/// The first occurrence of the end marker at or after position `i`.
pub open spec fn find_marker_from(s: Seq<u8>, i: nat) -> Option<nat>
    decreases s.len() - i,
{
    if i + 16 > s.len() {
        None
    } else if marker_at(s, i) {
        Some(i)
    } else {
        find_marker_from(s, i + 1)
    }
}

/// The magic tag as a vector.
fn magic_bytes() -> (r: Vec<u8>)
    ensures
        r@ == magic(),
{
    let mut v: Vec<u8> = Vec::new();
    v.push(0x50);
    v.push(0x57);
    v.push(0x53);
    v.push(0x33);
    proof {
        assert(v@ =~= magic());
    }
    v
}

/// The end marker as a vector.
fn marker_bytes() -> (r: Vec<u8>)
    ensures
        r@ == eof_marker(),
{
    let mut v: Vec<u8> = Vec::new();
    v.push(0x50);
    v.push(0x57);
    v.push(0x53);
    v.push(0x33);
    v.push(0x2d);
    v.push(0x45);
    v.push(0x4f);
    v.push(0x46);
    v.push(0x50);
    v.push(0x57);
    v.push(0x53);
    v.push(0x33);
    v.push(0x2d);
    v.push(0x45);
    v.push(0x4f);
    v.push(0x46);
    proof {
        assert(v@ =~= eof_marker());
    }
    v
}

/// Whether two byte slices hold the same bytes.
pub(crate) fn bytes_eq(a: &[u8], b: &[u8]) -> (r: bool)
    ensures
        r == (a@ == b@),
{
    if a.len() != b.len() {
        return false;
    }
    let n = a.len();
    let mut i: usize = 0;
    while i < n
        invariant
            n == a@.len(),
            n == b@.len(),
            i <= n,
            forall|j: int| 0 <= j < i ==> a@[j] == b@[j],
        decreases n - i,
    {
        if a[i] != b[i] {
            return false;
        }
        i = i + 1;
    }
    proof {
        assert(a@ =~= b@);
    }
    true
}

/// Copies the bytes of `v` between `start` and `end` into a new vector.
pub(crate) fn subvec(v: &[u8], start: usize, end: usize) -> (r: Vec<u8>)
    requires
        start <= end <= v@.len(),
    ensures
        r@ == v@.subrange(start as int, end as int),
{
    let mut r: Vec<u8> = Vec::new();
    let mut i: usize = start;
    while i < end
        invariant
            start <= i <= end <= v@.len(),
            r@ == v@.subrange(start as int, i as int),
        decreases end - i,
    {
        r.push(v[i]);
        i = i + 1;
        proof {
            assert(r@ =~= v@.subrange(start as int, i as int));
        }
    }
    r
}

/// Finds the first occurrence of the end marker in `v`.
pub fn find_marker(v: &[u8]) -> (r: Option<usize>)
    ensures
        (match r {
            Some(p) => find_marker_from(v@, 0) == Some(p as nat),
            None => find_marker_from(v@, 0) is None,
        }),
{
    let m = marker_bytes();
    let n = v.len();
    if n < 16 {
        return None;
    }
    let mut i: usize = 0;
    while i <= n - 16
        invariant
            m@ == eof_marker(),
            n == v@.len(),
            16 <= n,
            i <= n,
            find_marker_from(v@, 0) == find_marker_from(v@, i as nat),
        decreases n - i,
    {
        let mut j: usize = 0;
        let mut same: bool = true;
        while j < 16
            invariant
                m@ == eof_marker(),
                n == v@.len(),
                i + 16 <= n,
                j <= 16,
                same == (forall|t: int| 0 <= t < j ==> v@[i + t] == eof_marker()[t]),
            decreases 16 - j,
        {
            if v[i + j] != m[j] {
                same = false;
            }
            j = j + 1;
        }
        if same {
            proof {
                assert(v@.subrange(i as int, (i + 16) as int) =~= eof_marker());
                assert(marker_at(v@, i as nat));
            }
            return Some(i);
        }
        proof {
            assert(!marker_at(v@, i as nat)) by {
                if marker_at(v@, i as nat) {
                    let t = choose|t: int|
                        0 <= t < 16 && v@[i + t] != eof_marker()[t];
                    assert(v@.subrange(i as int, (i + 16) as int)[t] == v@[i + t]);
                }
            }
        }
        i = i + 1;
    }
    None
}

/// A found marker position really carries the marker.
pub proof fn lemma_find_marker_at(s: Seq<u8>, i: nat)
    ensures
        find_marker_from(s, i) matches Some(p) ==> i <= p && marker_at(s, p),
    decreases s.len() - i,
{
    if i + 16 <= s.len() && !marker_at(s, i) {
        lemma_find_marker_at(s, i + 1);
    }
}

/// The view of a sequence of items.
pub open spec fn views_of(items: Seq<Item>) -> Seq<Map<Kind, FieldV>> {
    Seq::new(items.len(), |i: int| items[i]@)
}

/// What parsing the run of entry records from position `pos` yields,
/// given the entries and authenticator bytes accumulated so far.
pub enum EntriesParse {
    Fail(UnlockError),
    Got { entries: Seq<Map<Kind, FieldV>>, mac: Seq<u8> },
}

/// Parses entry records until the clean end of the stream, accumulating
/// them in file order together with the bytes they feed the authenticator.
pub open spec fn spec_entries(
    s: Seq<u8>,
    pos: nat,
    entries: Seq<Map<Kind, FieldV>>,
    mac: Seq<u8>,
) -> EntriesParse
    decreases s.len() - pos,
{
    match spec_record(s, pos, Registry::Record, Map::empty(), Seq::empty(), false) {
        RecParse::NoMore => EntriesParse::Got { entries, mac },
        RecParse::Fail(e) => EntriesParse::Fail(e),
        RecParse::Got { fields, mac: m2, next } => {
            if pos < next <= s.len() {
                spec_entries(s, next, entries.push(fields), mac + m2)
            } else {
                EntriesParse::Fail(UnlockError::FormatError)
            }
        },
    }
}

/// What parsing the whole decrypted body yields.
pub enum BodyParse {
    Fail(UnlockError),
    Got { header: Map<Kind, FieldV>, entries: Seq<Map<Kind, FieldV>>, mac: Seq<u8> },
}

/// Parses the decrypted body: exactly one header record, then entry
/// records until the clean end of the stream.  `mac` is the whole
/// authenticator input: every field's value bytes in file order.
pub open spec fn spec_body(s: Seq<u8>) -> BodyParse {
    match spec_record(s, 0, Registry::Header, Map::empty(), Seq::empty(), false) {
        RecParse::NoMore => BodyParse::Fail(UnlockError::FormatError),
        RecParse::Fail(e) => BodyParse::Fail(e),
        RecParse::Got { fields, mac, next } => match spec_entries(s, next, Seq::empty(), mac) {
            EntriesParse::Fail(e) => BodyParse::Fail(e),
            EntriesParse::Got { entries, mac: m } => BodyParse::Got {
                header: fields,
                entries,
                mac: m,
            },
        },
    }
}

/// The stretched key the file prescribes for a password.
pub open spec fn unlock_stretched(s: Seq<u8>, pw: Seq<u8>) -> Seq<u8> {
    stretch_of(pw, s.subrange(4, 36), spec_u32_from_le_bytes(s.subrange(36, 40)))
}

/// Whether the fixed-layout prefix is well-formed and the password is
/// right: the magic tag is in place and the stored verification value is
/// the hash of the stretched key.
pub open spec fn prelude_ok(s: Seq<u8>, pw: Seq<u8>) -> bool {
    &&& s.len() >= 152
    &&& s.subrange(0, 4) == magic()
    &&& sha256_of(unlock_stretched(s, pw)) == s.subrange(40, 72)
}

/// The data key: the first encrypted key block, unwrapped.
pub open spec fn unlock_data_key(s: Seq<u8>, pw: Seq<u8>) -> Seq<u8> {
    twofish_ecb_decrypt_of(s.subrange(72, 104), unlock_stretched(s, pw))
}

/// The authentication key: the second encrypted key block, unwrapped.
pub open spec fn unlock_auth_key(s: Seq<u8>, pw: Seq<u8>) -> Seq<u8> {
    twofish_ecb_decrypt_of(s.subrange(104, 136), unlock_stretched(s, pw))
}

/// The contents of an unlocked database.
pub struct DbView {
    pub salt: Seq<u8>,
    pub iterations: u32,
    pub header: Map<Kind, FieldV>,
    pub entries: Seq<Map<Kind, FieldV>>,
}

/// The outcome of an unlock: the decoded contents, or the error that
/// stopped the pipeline.
pub enum UnlockOutcome {
    Fail(UnlockError),
    Unlocked(DbView),
}

/// The whole unlock pipeline as a function of the file bytes and the
/// password bytes:
///
/// 1. the file must be long enough for the fixed layout and start with
///    the magic tag, else `FormatError`;
/// 2. the password is stretched against the salt and iteration count and
///    checked against the stored verification hash, else
///    `AuthenticationError`;
/// 3. the two key blocks are unwrapped and the first occurrence of the
///    end marker located (absent marker or truncated tag: `FormatError`;
///    a ciphertext that is not whole 16-byte blocks: `DecryptionError`);
/// 4. the ciphertext before the marker is decrypted and parsed as one
///    header record and a run of entry records;
/// 5. the 32 bytes after the marker must equal the HMAC of every parsed
///    field value, else `AuthenticationError`.
pub open spec fn spec_unlock(s: Seq<u8>, pw: Seq<u8>) -> UnlockOutcome {
    if s.len() < 152 {
        UnlockOutcome::Fail(UnlockError::FormatError)
    } else if s.subrange(0, 4) != magic() {
        UnlockOutcome::Fail(UnlockError::FormatError)
    } else if sha256_of(unlock_stretched(s, pw)) != s.subrange(40, 72) {
        UnlockOutcome::Fail(UnlockError::AuthenticationError)
    } else {
        let rest = s.subrange(152, s.len() as int);
        match find_marker_from(rest, 0) {
            None => UnlockOutcome::Fail(UnlockError::FormatError),
            Some(p) => {
                if rest.len() < p + 48 {
                    UnlockOutcome::Fail(UnlockError::FormatError)
                } else if p % 16 != 0 {
                    UnlockOutcome::Fail(UnlockError::DecryptionError)
                } else {
                    let plain = twofish_cbc_decrypt_of(
                        rest.subrange(0, p as int),
                        unlock_data_key(s, pw),
                        s.subrange(136, 152),
                    );
                    match spec_body(plain) {
                        BodyParse::Fail(e) => UnlockOutcome::Fail(e),
                        BodyParse::Got { header, entries, mac } => {
                            if rest.subrange((p + 16) as int, (p + 48) as int) == hmac_sha256_of(
                                unlock_auth_key(s, pw),
                                mac,
                            ) {
                                UnlockOutcome::Unlocked(
                                    DbView {
                                        salt: s.subrange(4, 36),
                                        iterations: spec_u32_from_le_bytes(s.subrange(36, 40)),
                                        header,
                                        entries,
                                    },
                                )
                            } else {
                                UnlockOutcome::Fail(UnlockError::AuthenticationError)
                            }
                        },
                    }
                }
            },
        }
    }
}

/// An unlocked database: its salt, iteration count, decoded header, and
/// entries in file order.  A value of this type exists only after a
/// successful unlock; a failed unlock returns an error instead.
#[derive(Debug)]
pub struct V3 {
    salt: Vec<u8>,
    iterations: u32,
    header: Item,
    items: Vec<Item>,
}

impl View for V3 {
    type V = DbView;

    closed spec fn view(&self) -> DbView {
        DbView {
            salt: self.salt@,
            iterations: self.iterations,
            header: self.header@,
            entries: views_of(self.items@),
        }
    }
}

impl V3 {
    /// Runs the unlock pipeline on the raw bytes of a database file:
    /// the result, success or failure, is exactly what [`spec_unlock`]
    /// prescribes for these bytes and this password.
    pub fn new(data: &[u8], password: &str) -> (r: Result<V3, UnlockError>)
        ensures
            (match r {
                Ok(db) => spec_unlock(data@, password.spec_bytes()) == UnlockOutcome::Unlocked(
                    db@,
                ),
                Err(e) => spec_unlock(data@, password.spec_bytes()) == UnlockOutcome::Fail(e),
            }),
    {
        let ghost s = data@;
        let ghost pw = password.spec_bytes();
        let mut cur = Cursor::new(vstd::slice::slice_to_vec(data));
        if cur.remaining() < 152 {
            return Err(UnlockError::FormatError);
        }
        let tag4 = cur.read_bytes(4);
        let m4 = magic_bytes();
        if !bytes_eq(tag4.as_slice(), m4.as_slice()) {
            return Err(UnlockError::FormatError);
        }
        let salt = cur.read_bytes(32);
        let iterations = cur.peek_u32_le();
        cur.advance(4);
        let stored = cur.read_bytes(32);
        let stretched = stretch(password, salt.as_slice(), iterations);
        let check = sha256(stretched.as_slice());
        if !bytes_eq(check.as_slice(), stored.as_slice()) {
            return Err(UnlockError::AuthenticationError);
        }
        let b12 = cur.read_bytes(32);
        let b34 = cur.read_bytes(32);
        let iv = cur.read_bytes(16);
        let k = decrypt_block_ecb(b12.as_slice(), stretched.as_slice());
        let l = decrypt_block_ecb(b34.as_slice(), stretched.as_slice());
        let rest_len = cur.remaining();
        let rest = cur.read_bytes(rest_len);
        let ghost rests = s.subrange(152, s.len() as int);
        proof {
            assert(rest@ == rests);
        }
        let p = match find_marker(rest.as_slice()) {
            Some(p) => p,
            None => {
                return Err(UnlockError::FormatError);
            },
        };
        proof {
            lemma_find_marker_at(rests, 0);
        }
        if rest.len() - p < 48 {
            return Err(UnlockError::FormatError);
        }
        if p % 16 != 0 {
            return Err(UnlockError::DecryptionError);
        }
        let mut body = subvec(rest.as_slice(), 0, p);
        decrypt_inplace(&mut body, k.as_slice(), iv.as_slice());
        let expected_tag = subvec(rest.as_slice(), p + 16, p + 48);
        let ghost plain = twofish_cbc_decrypt_of(
            rests.subrange(0, p as int),
            unlock_data_key(s, pw),
            s.subrange(136, 152),
        );
        proof {
            assert(body@ == plain);
        }
        let mut pc = Cursor::new(body);
        let mut acc: Vec<u8> = Vec::new();
        let header = match parse(&mut pc, Registry::Header, &mut acc) {
            Ok(Some(h)) => h,
            Ok(None) => {
                return Err(UnlockError::FormatError);
            },
            Err(e) => {
                return Err(e);
            },
        };
        proof {
            lemma_record_advances(plain, 0, Registry::Header, Map::empty(), Seq::empty(), false);
        }
        let ghost hnext = pc.pos();
        let ghost hmac0 = acc@;
        let mut items: Vec<Item> = Vec::new();
        proof {
            assert(views_of(items@) =~= Seq::<Map<Kind, FieldV>>::empty());
        }
        #[verifier::loop_isolation(false)]
        loop
            invariant
                pc.wf(),
                pc.data() == plain,
                spec_entries(plain, hnext, Seq::empty(), hmac0) == spec_entries(
                    plain,
                    pc.pos(),
                    views_of(items@),
                    acc@,
                ),
            decreases plain.len() - pc.pos(),
        {
            let ghost pre_pos = pc.pos();
            let ghost pre_items = items@;
            match parse(&mut pc, Registry::Record, &mut acc) {
                Ok(Some(it)) => {
                    proof {
                        lemma_record_advances(
                            plain,
                            pre_pos,
                            Registry::Record,
                            Map::empty(),
                            Seq::empty(),
                            false,
                        );
                    }
                    items.push(it);
                    proof {
                        assert(views_of(items@) =~= views_of(pre_items).push(items@.last()@));
                    }
                },
                Ok(None) => {
                    let mut mac = HMAC::new(l.as_slice());
                    mac.update(acc.as_slice());
                    if !mac.verify(expected_tag.as_slice()) {
                        return Err(UnlockError::AuthenticationError);
                    }
                    return Ok(V3 { salt, iterations, header, items });
                },
                Err(e) => {
                    return Err(e);
                },
            }
        }
    }

    /// How many entry records the database holds.
    pub fn len(&self) -> (n: usize)
        ensures
            n == self@.entries.len(),
    {
        self.items.len()
    }

    /// The entry records, in file order.
    pub fn iter(&self) -> (r: &Vec<Item>)
        ensures
            r@.len() == self@.entries.len(),
            forall|i: int| #![auto] 0 <= i < r@.len() ==> r@[i]@ == self@.entries[i],
    {
        &self.items
    }

    /// The (display name, entry) pairs, in file order.
    pub fn each(&self) -> (r: Vec<(String, Item)>)
        ensures
            r@.len() == self@.entries.len(),
            forall|i: int| #![auto]
                0 <= i < r@.len() ==> r@[i].0@ == spec_display_name(self@.entries[i])
                    && r@[i].1@ == self@.entries[i],
    {
        let n = self.items.len();
        let mut out: Vec<(String, Item)> = Vec::new();
        let mut i: usize = 0;
        while i < n
            invariant
                n == self.items@.len(),
                i <= n,
                out@.len() == i,
                forall|j: int| #![auto]
                    0 <= j < i ==> out@[j].0@ == spec_display_name(self.items@[j]@)
                        && out@[j].1@ == self.items@[j]@,
            decreases n - i,
        {
            let it = &self.items[i];
            let name = display_name(it);
            let copy = it.duplicate();
            out.push((name, copy));
            i = i + 1;
        }
        out
    }
}

/// The display name of an entry: `Group + "." + Title` when a text group
/// field is present, else the title alone.
pub open spec fn spec_display_name(m: Map<Kind, FieldV>) -> Seq<char> {
    let title: Seq<char> = if m.contains_key(Kind::Title) {
        match m[Kind::Title].data {
            DataV::Text(t) => t,
            _ => Seq::empty(),
        }
    } else {
        Seq::empty()
    };
    if m.contains_key(Kind::Group) {
        match m[Kind::Group].data {
            DataV::Text(g) => g + "."@ + title,
            _ => title,
        }
    } else {
        title
    }
}

/// Computes an entry's display name.
pub fn display_name(item: &Item) -> (r: String)
    ensures
        r@ == spec_display_name(item@),
{
    let mut name = String::new();
    match item.get(Kind::Group) {
        Some(Data::Text(g)) => {
            name.append(g.as_str());
            name.append(".");
        },
        _ => {},
    }
    match item.get(Kind::Title) {
        Some(Data::Text(t)) => {
            name.append(t.as_str());
        },
        _ => {},
    }
    proof {
        assert(name@ =~= spec_display_name(item@));
    }
    name
}

/// The password check is decided by the 152-byte fixed prefix alone: a
/// file whose bytes differ only behind that prefix — a tampered
/// ciphertext body, marker, or tag — still passes it with the right
/// password, so such tampering can never look like a wrong password.
pub proof fn lemma_password_check_ignores_body(s1: Seq<u8>, s2: Seq<u8>, pw: Seq<u8>)
    requires
        s1.len() >= 152,
        s2.len() >= 152,
        s1.subrange(0, 152) == s2.subrange(0, 152),
        prelude_ok(s1, pw),
    ensures
        prelude_ok(s2, pw),
{
    assert(s2.subrange(0, 4) =~= s2.subrange(0, 152).subrange(0, 4));
    assert(s1.subrange(0, 4) =~= s1.subrange(0, 152).subrange(0, 4));
    assert(s2.subrange(4, 36) =~= s2.subrange(0, 152).subrange(4, 36));
    assert(s1.subrange(4, 36) =~= s1.subrange(0, 152).subrange(4, 36));
    assert(s2.subrange(36, 40) =~= s2.subrange(0, 152).subrange(36, 40));
    assert(s1.subrange(36, 40) =~= s1.subrange(0, 152).subrange(36, 40));
    assert(s2.subrange(40, 72) =~= s2.subrange(0, 152).subrange(40, 72));
    assert(s1.subrange(40, 72) =~= s1.subrange(0, 152).subrange(40, 72));
}

/// A wrong password on a file with the magic tag in place fails with
/// `AuthenticationError`, and the outcome is decided by the 152-byte
/// fixed prefix alone: any other file sharing that prefix fails the same
/// way, so the ciphertext behind the prefix is never consulted.
pub proof fn lemma_wrong_password(s: Seq<u8>, other: Seq<u8>, pw: Seq<u8>)
    requires
        s.len() >= 152,
        s.subrange(0, 4) == magic(),
        sha256_of(unlock_stretched(s, pw)) != s.subrange(40, 72),
        other.len() >= 152,
        other.subrange(0, 152) == s.subrange(0, 152),
    ensures
        spec_unlock(s, pw) == UnlockOutcome::Fail(UnlockError::AuthenticationError),
        spec_unlock(other, pw) == UnlockOutcome::Fail(UnlockError::AuthenticationError),
{
    assert(other.subrange(0, 4) =~= other.subrange(0, 152).subrange(0, 4));
    assert(s.subrange(0, 4) =~= s.subrange(0, 152).subrange(0, 4));
    assert(other.subrange(4, 36) =~= other.subrange(0, 152).subrange(4, 36));
    assert(s.subrange(4, 36) =~= s.subrange(0, 152).subrange(4, 36));
    assert(other.subrange(36, 40) =~= other.subrange(0, 152).subrange(36, 40));
    assert(s.subrange(36, 40) =~= s.subrange(0, 152).subrange(36, 40));
    assert(other.subrange(40, 72) =~= other.subrange(0, 152).subrange(40, 72));
    assert(s.subrange(40, 72) =~= s.subrange(0, 152).subrange(40, 72));
}

/// When the password is right, the end marker and trailing tag are in
/// place, the ciphertext is whole blocks, and the decrypted body parses
/// as records, a stored tag that is not the HMAC of the parsed field
/// values still makes the unlock fail with `AuthenticationError`:
/// structural success of parsing is never enough.  In particular a
/// tampered body that decrypts and parses cannot unlock unless the
/// integrity check passes.
pub proof fn lemma_tag_mismatch_is_authentication_error(s: Seq<u8>, pw: Seq<u8>, p: nat)
    requires
        prelude_ok(s, pw),
        find_marker_from(s.subrange(152, s.len() as int), 0) == Some(p),
        s.subrange(152, s.len() as int).len() >= p + 48,
        p % 16 == 0,
        (spec_body(
            twofish_cbc_decrypt_of(
                s.subrange(152, s.len() as int).subrange(0, p as int),
                unlock_data_key(s, pw),
                s.subrange(136, 152),
            ),
        ) matches BodyParse::Got { mac, .. } && s.subrange(152, s.len() as int).subrange(
            (p + 16) as int,
            (p + 48) as int,
        ) != hmac_sha256_of(unlock_auth_key(s, pw), mac)),
    ensures
        spec_unlock(s, pw) == UnlockOutcome::Fail(UnlockError::AuthenticationError),
{
}

/// Unlocking is deterministic: the outcome is a function of the file
/// bytes and the password alone, so two successful unlocks of the same
/// file with the same password hold identical salt, iteration count,
/// header and entries.  Combined with [`V3::new`]'s contract, unlocking
/// the same bytes twice yields databases with equal views.
pub proof fn lemma_unlock_deterministic(s: Seq<u8>, pw: Seq<u8>, d1: DbView, d2: DbView)
    requires
        spec_unlock(s, pw) == UnlockOutcome::Unlocked(d1),
        spec_unlock(s, pw) == UnlockOutcome::Unlocked(d2),
    ensures
        d1 == d2,
{
}

} // verus!

