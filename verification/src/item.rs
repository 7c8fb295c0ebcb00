//! Field and record model: semantic kinds, value types, the two
//! tag-to-definition registries, the TLV field parser, and the record
//! assembler.
//!
//! A field on disk is a 4-byte little-endian length, a 1-byte type tag,
//! `length` value bytes, and zero-padding up to the next 16-byte boundary
//! measured from the start of the length prefix.  A record is a run of
//! fields ended by a field whose kind is `End`.

use vstd::prelude::*;

verus! {

use vstd::bytes::{spec_u16_from_le_bytes, spec_u32_from_le_bytes, u16_from_le_bytes,
    u32_from_le_bytes};

use crate::UnlockError;
use crate::cursor::Cursor;
use crate::crypto::push_all;

/// Semantic identity of a field.  `End` terminates a record; `Unknown`
/// stands for tags absent from the registry in use.
#[derive(PartialEq, Eq, Structural, Hash, Debug, Clone, Copy)]
pub enum Kind {
    Unknown,
    Version,
    UUID,
    End,
    Group,
    Title,
    Username,
    Notes,
    Password,
    PasswordHistory,
    PasswordPolicy,
    PasswordSymbols,
    CreateTime,
    AccessTime,
    ExpiryTime,
    ModifyTime,
    SClickAction,
    DClickAction,
    Autotype,
    RunCommand,
    Protected,
    Email,
}

/// How a field's raw value bytes are interpreted.
#[derive(PartialEq, Eq, Structural, Hash, Debug, Clone, Copy)]
pub enum Type {
    Raw,
    Byte,
    Short,
    Int,
    Text,
}

/// What a tag means: a semantic kind and the encoding of its value.
#[derive(PartialEq, Eq, Structural, Debug, Clone, Copy)]
pub struct Def {
    pub kind: Kind,
    pub tp: Type,
}

/// A decoded field value.
#[derive(PartialEq, Eq, Hash, Debug, Clone)]
pub enum Data {
    Raw(Vec<u8>),
    Byte(u8),
    Short(u16),
    Int(u32),
    Text(String),
}

/// The mathematical value of a [`Data`].
pub enum DataV {
    Raw(Seq<u8>),
    Byte(u8),
    Short(u16),
    Int(u32),
    Text(Seq<char>),
}

impl View for Data {
    type V = DataV;

    open spec fn view(&self) -> DataV {
        match self {
            Data::Raw(v) => DataV::Raw(v@),
            Data::Byte(b) => DataV::Byte(*b),
            Data::Short(x) => DataV::Short(*x),
            Data::Int(x) => DataV::Int(*x),
            Data::Text(s) => DataV::Text(s@),
        }
    }
}

/// One decoded field: its definition and its value.
#[derive(Debug)]
pub struct Field {
    pub def: Def,
    pub data: Data,
}

/// The mathematical value of a [`Field`].
pub struct FieldV {
    pub def: Def,
    pub data: DataV,
}

impl View for Field {
    type V = FieldV;

    open spec fn view(&self) -> FieldV {
        FieldV { def: self.def, data: self.data@ }
    }
}

/// Which tag-to-definition table is in use: the file header's or the one
/// for entry records.
#[derive(PartialEq, Eq, Structural, Debug, Clone, Copy)]
pub enum Registry {
    Header,
    Record,
}

/// The two constant registries, as a function from tag to definition.
pub open spec fn spec_lookup(reg: Registry, tag: u8) -> Option<Def> {
    match reg {
        Registry::Header => match tag {
            0x00 => Some(Def { kind: Kind::Version, tp: Type::Short }),
            0x01 => Some(Def { kind: Kind::UUID, tp: Type::Raw }),
            0xff => Some(Def { kind: Kind::End, tp: Type::Raw }),
            _ => None,
        },
        Registry::Record => match tag {
            0x01 => Some(Def { kind: Kind::UUID, tp: Type::Raw }),
            0x02 => Some(Def { kind: Kind::Group, tp: Type::Text }),
            0x03 => Some(Def { kind: Kind::Title, tp: Type::Text }),
            0x04 => Some(Def { kind: Kind::Username, tp: Type::Text }),
            0x05 => Some(Def { kind: Kind::Notes, tp: Type::Text }),
            0x06 => Some(Def { kind: Kind::Password, tp: Type::Text }),
            0x07 => Some(Def { kind: Kind::CreateTime, tp: Type::Int }),
            0x09 => Some(Def { kind: Kind::AccessTime, tp: Type::Int }),
            0x0a => Some(Def { kind: Kind::ExpiryTime, tp: Type::Int }),
            0x0c => Some(Def { kind: Kind::ModifyTime, tp: Type::Int }),
            0x0e => Some(Def { kind: Kind::Autotype, tp: Type::Text }),
            0x0f => Some(Def { kind: Kind::PasswordHistory, tp: Type::Text }),
            0x10 => Some(Def { kind: Kind::PasswordPolicy, tp: Type::Text }),
            0x12 => Some(Def { kind: Kind::RunCommand, tp: Type::Text }),
            0x13 => Some(Def { kind: Kind::DClickAction, tp: Type::Short }),
            0x14 => Some(Def { kind: Kind::Email, tp: Type::Text }),
            0x15 => Some(Def { kind: Kind::Protected, tp: Type::Byte }),
            0x16 => Some(Def { kind: Kind::PasswordSymbols, tp: Type::Text }),
            0x17 => Some(Def { kind: Kind::SClickAction, tp: Type::Short }),
            0xff => Some(Def { kind: Kind::End, tp: Type::Raw }),
            _ => None,
        },
    }
}

/// The definition a tag decodes under: the registry's entry, or
/// `Unknown`/`Raw` for a tag the registry does not list.
pub open spec fn spec_def_for(reg: Registry, tag: u8) -> Def {
    match spec_lookup(reg, tag) {
        Some(d) => d,
        None => Def { kind: Kind::Unknown, tp: Type::Raw },
    }
}

/// Looks a tag up in the given registry.
pub fn lookup(reg: Registry, tag: u8) -> (r: Option<Def>)
    ensures
        r == spec_lookup(reg, tag),
{
    match reg {
        Registry::Header => match tag {
            0x00 => Some(Def { kind: Kind::Version, tp: Type::Short }),
            0x01 => Some(Def { kind: Kind::UUID, tp: Type::Raw }),
            0xff => Some(Def { kind: Kind::End, tp: Type::Raw }),
            _ => None,
        },
        Registry::Record => match tag {
            0x01 => Some(Def { kind: Kind::UUID, tp: Type::Raw }),
            0x02 => Some(Def { kind: Kind::Group, tp: Type::Text }),
            0x03 => Some(Def { kind: Kind::Title, tp: Type::Text }),
            0x04 => Some(Def { kind: Kind::Username, tp: Type::Text }),
            0x05 => Some(Def { kind: Kind::Notes, tp: Type::Text }),
            0x06 => Some(Def { kind: Kind::Password, tp: Type::Text }),
            0x07 => Some(Def { kind: Kind::CreateTime, tp: Type::Int }),
            0x09 => Some(Def { kind: Kind::AccessTime, tp: Type::Int }),
            0x0a => Some(Def { kind: Kind::ExpiryTime, tp: Type::Int }),
            0x0c => Some(Def { kind: Kind::ModifyTime, tp: Type::Int }),
            0x0e => Some(Def { kind: Kind::Autotype, tp: Type::Text }),
            0x0f => Some(Def { kind: Kind::PasswordHistory, tp: Type::Text }),
            0x10 => Some(Def { kind: Kind::PasswordPolicy, tp: Type::Text }),
            0x12 => Some(Def { kind: Kind::RunCommand, tp: Type::Text }),
            0x13 => Some(Def { kind: Kind::DClickAction, tp: Type::Short }),
            0x14 => Some(Def { kind: Kind::Email, tp: Type::Text }),
            0x15 => Some(Def { kind: Kind::Protected, tp: Type::Byte }),
            0x16 => Some(Def { kind: Kind::PasswordSymbols, tp: Type::Text }),
            0x17 => Some(Def { kind: Kind::SClickAction, tp: Type::Short }),
            0xff => Some(Def { kind: Kind::End, tp: Type::Raw }),
            _ => None,
        },
    }
}

/// Looks a tag up, falling back to `Unknown`/`Raw`.
pub fn def_for(reg: Registry, tag: u8) -> (r: Def)
    ensures
        r == spec_def_for(reg, tag),
{
    match lookup(reg, tag) {
        Some(d) => d,
        None => Def { kind: Kind::Unknown, tp: Type::Raw },
    }
}

/// The lossy UTF-8 decoding of a byte sequence; invalid sequences become
/// replacement characters.  The result depends on the bytes alone.
pub uninterp spec fn utf8_lossy_of(bytes: Seq<u8>) -> Seq<char>;

/// Relies on `String::from_utf8_lossy` of std: the decoding is a pure
/// function of the bytes.
#[verifier::external_body]
fn decode_text(v: &[u8]) -> (r: String)
    ensures
        r@ == utf8_lossy_of(v@),
{
    String::from_utf8_lossy(v).into_owned()
}

/// Whether a value of `len` bytes is acceptable for the given value type:
/// `Byte`, `Short` and `Int` values must be exactly 1, 2 and 4 bytes.
pub open spec fn value_len_ok(tp: Type, len: nat) -> bool {
    match tp {
        Type::Byte => len == 1,
        Type::Short => len == 2,
        Type::Int => len == 4,
        _ => true,
    }
}

/// How raw value bytes decode under a value type.
pub open spec fn spec_decode(tp: Type, v: Seq<u8>) -> DataV {
    match tp {
        Type::Raw => DataV::Raw(v),
        Type::Byte => DataV::Byte(v[0]),
        Type::Short => DataV::Short(spec_u16_from_le_bytes(v)),
        Type::Int => DataV::Int(spec_u32_from_le_bytes(v)),
        Type::Text => DataV::Text(utf8_lossy_of(v)),
    }
}

/// Decodes one field from its registry tag and raw value bytes.
/// A value whose length does not fit its type is a format error.
pub fn new_field(reg: Registry, tag: u8, data: Vec<u8>) -> (r: Result<Field, UnlockError>)
    ensures
        ({
            let def = spec_def_for(reg, tag);
            match r {
                Ok(f) => value_len_ok(def.tp, data@.len()) && f.def == def && f.data@
                    == spec_decode(def.tp, data@),
                Err(e) => e == UnlockError::FormatError && !value_len_ok(def.tp, data@.len()),
            }
        }),
{
    let def = def_for(reg, tag);
    match def.tp {
        Type::Raw => Ok(Field { def, data: Data::Raw(data) }),
        Type::Byte => {
            if data.len() != 1 {
                return Err(UnlockError::FormatError);
            }
            Ok(Field { def, data: Data::Byte(data[0]) })
        },
        Type::Short => {
            if data.len() != 2 {
                return Err(UnlockError::FormatError);
            }
            Ok(Field { def, data: Data::Short(u16_from_le_bytes(data.as_slice())) })
        },
        Type::Int => {
            if data.len() != 4 {
                return Err(UnlockError::FormatError);
            }
            Ok(Field { def, data: Data::Int(u32_from_le_bytes(data.as_slice())) })
        },
        Type::Text => Ok(Field { def, data: Data::Text(decode_text(data.as_slice())) }),
    }
}

/// Zero-padding after a field of `len` value bytes, bringing
/// `5 + len` up to the next multiple of 16.
pub open spec fn pad_len(len: nat) -> nat {
    let r = (5 + len) % 16;
    if r == 0 {
        0
    } else {
        (16 - r) as nat
    }
}

/// The whole size a field occupies: length prefix, tag, value, padding.
pub open spec fn field_size(len: nat) -> nat {
    5 + len + pad_len(len)
}

/// What parsing one field at position `pos` of stream `s` yields.
pub enum FieldParse {
    /// The stream ends exactly here: the expected way a record stream ends.
    NoMore,
    /// The bytes at `pos` are not a well-formed field.
    Fail(UnlockError),
    /// A field: its definition, decoded value, raw value bytes, and the
    /// position of the next field.
    Got { def: Def, data: DataV, value: Seq<u8>, next: nat },
}

/// The field at position `pos` of stream `s`, under registry `reg`.
///
/// A stream ending inside the 4-byte length prefix is a parse error,
/// not a clean end; a value or its padding running past the end of the
/// stream, or a value whose length does not fit its type, is a format
/// error.
pub open spec fn spec_field(s: Seq<u8>, pos: nat, reg: Registry) -> FieldParse {
    if pos == s.len() {
        FieldParse::NoMore
    } else if pos + 4 > s.len() {
        FieldParse::Fail(UnlockError::ParseError)
    } else {
        let len = spec_u32_from_le_bytes(s.subrange(pos as int, (pos + 4) as int)) as nat;
        if pos + 5 + len > s.len() || pos + field_size(len) > s.len() {
            FieldParse::Fail(UnlockError::FormatError)
        } else {
            let def = spec_def_for(reg, s[(pos + 4) as int]);
            let value = s.subrange((pos + 5) as int, (pos + 5 + len) as int);
            if !value_len_ok(def.tp, len) {
                FieldParse::Fail(UnlockError::FormatError)
            } else {
                FieldParse::Got {
                    def,
                    data: spec_decode(def.tp, value),
                    value,
                    next: pos + field_size(len),
                }
            }
        }
    }
}

/// A parsed field always fits in the stream and advances the position.
pub proof fn lemma_field_advances(s: Seq<u8>, pos: nat, reg: Registry)
    ensures
        spec_field(s, pos, reg) matches FieldParse::Got { next, .. } ==> pos < next
            <= s.len(),
{
}

/// Decodes one field from the cursor.  On success the raw value bytes are
/// appended to `acc`, the running authenticator input.  On any error or on
/// a clean end of stream, cursor and accumulator are unchanged.
pub fn parse_field(c: &mut Cursor, reg: Registry, acc: &mut Vec<u8>) -> (r: Result<
    Option<Field>,
    UnlockError,
>)
    requires
        old(c).wf(),
    ensures
        final(c).wf(),
        final(c).data() == old(c).data(),
        (match spec_field(old(c).data(), old(c).pos(), reg) {
            FieldParse::NoMore => r matches Ok(None) && final(c).pos() == old(c).pos()
                && final(acc)@ == old(acc)@,
            FieldParse::Fail(e) => r matches Err(e2) && e2 == e && final(c).pos() == old(c).pos()
                && final(acc)@ == old(acc)@,
            FieldParse::Got { def, data, value, next } => r matches Ok(Some(f)) && f.def == def
                && f.data@ == data && final(c).pos() == next && final(acc)@ == old(acc)@ + value,
        }),
{
    let rem = c.remaining();
    if rem == 0 {
        return Ok(None);
    }
    if rem < 4 {
        return Err(UnlockError::ParseError);
    }
    let len32 = c.peek_u32_le();
    let len64: u64 = len32 as u64;
    let rem64: u64 = rem as u64;
    if rem64 < 5 || len64 > rem64 - 5 {
        return Err(UnlockError::FormatError);
    }
    let sum: u64 = 5 + len64;
    let r16: u64 = sum % 16;
    let pad: u64 = if r16 == 0 {
        0
    } else {
        16 - r16
    };
    if pad > rem64 - sum {
        return Err(UnlockError::FormatError);
    }
    let tag = c.peek(4);
    let def = def_for(reg, tag);
    let len_ok: bool = match def.tp {
        Type::Byte => len64 == 1,
        Type::Short => len64 == 2,
        Type::Int => len64 == 4,
        _ => true,
    };
    if !len_ok {
        return Err(UnlockError::FormatError);
    }
    c.advance(5);
    let v = c.read_bytes(len32 as usize);
    c.advance(pad as usize);
    push_all(acc, v.as_slice());
    match new_field(reg, tag, v) {
        Ok(f) => Ok(Some(f)),
        Err(e) => Err(e),
    }
}

/// The mapping a sequence of fields builds up, keyed by kind; a later
/// field with the same kind overwrites an earlier one.
pub open spec fn fields_map(s: Seq<Field>) -> Map<Kind, FieldV>
    decreases s.len(),
{
    if s.len() == 0 {
        Map::empty()
    } else {
        fields_map(s.drop_last()).insert(s.last().def.kind, s.last()@)
    }
}

/// One record: a mapping from kind to field, assembled by the record
/// parser.  Duplicate kinds keep the last field read.
#[derive(Debug)]
pub struct Item {
    fields: Vec<Field>,
}

impl View for Item {
    type V = Map<Kind, FieldV>;

    closed spec fn view(&self) -> Map<Kind, FieldV> {
        fields_map(self.fields@)
    }
}

impl Item {
    /// A copy with the same mathematical value.
    pub fn duplicate(&self) -> (r: Item)
        ensures
            r@ == self@,
    {
        let n = self.fields.len();
        let mut fs: Vec<Field> = Vec::new();
        let mut i: usize = 0;
        while i < n
            invariant
                n == self.fields@.len(),
                i <= n,
                fs@.len() == i,
                fields_map(fs@) == fields_map(self.fields@.take(i as int)),
            decreases n - i,
        {
            let ghost pre = fs@;
            let nf = self.fields[i].duplicate();
            fs.push(nf);
            i = i + 1;
            proof {
                assert(fs@.drop_last() =~= pre);
                assert(self.fields@.take(i as int).drop_last() =~= self.fields@.take(i - 1));
                assert(self.fields@.take(i as int).last() == self.fields@[i - 1]);
            }
        }
        proof {
            assert(self.fields@.take(n as int) =~= self.fields@);
        }
        Item { fields: fs }
    }

    /// Looks up the value stored under a kind.
    pub fn get(&self, k: Kind) -> (r: Option<&Data>)
        ensures
            (match r {
                Some(d) => self@.contains_key(k) && d@ == self@[k].data,
                None => !self@.contains_key(k),
            }),
    {
        let s = Ghost(self.fields@);
        let mut i: usize = self.fields.len();
        proof {
            assert(s@.take(i as int) =~= s@);
        }
        while i > 0
            invariant
                i <= s@.len(),
                s@ == self.fields@,
                fields_map(s@).contains_key(k) == fields_map(s@.take(i as int)).contains_key(k),
                fields_map(s@).contains_key(k) ==> fields_map(s@)[k] == fields_map(
                    s@.take(i as int),
                )[k],
            decreases i,
        {
            proof {
                assert(s@.take(i as int).drop_last() =~= s@.take(i as int - 1));
                assert(s@.take(i as int).last() == s@[i as int - 1]);
            }
            if self.fields[i - 1].def.kind == k {
                proof {
                    assert(fields_map(s@.take(i as int)).contains_key(k));
                    assert(fields_map(s@.take(i as int))[k] == s@[i as int - 1]@);
                }
                return Some(&self.fields[i - 1].data);
            }
            i = i - 1;
        }
        proof {
            assert(s@.take(0).len() == 0);
            assert(!fields_map(s@.take(0)).contains_key(k));
        }
        None
    }
}

impl Data {
    /// A copy with the same mathematical value.
    pub fn duplicate(&self) -> (r: Data)
        ensures
            r@ == self@,
    {
        match self {
            Data::Raw(v) => Data::Raw(vstd::slice::slice_to_vec(v.as_slice())),
            Data::Byte(b) => Data::Byte(*b),
            Data::Short(x) => Data::Short(*x),
            Data::Int(x) => Data::Int(*x),
            Data::Text(s) => Data::Text(s.clone()),
        }
    }
}

impl Field {
    /// A copy with the same mathematical value.
    pub fn duplicate(&self) -> (r: Field)
        ensures
            r@ == self@,
    {
        Field { def: self.def, data: self.data.duplicate() }
    }
}

/// What assembling one record from position `pos` yields.
pub enum RecParse {
    /// The stream ended cleanly before any field of this record.
    NoMore,
    /// The record is malformed or truncated.
    Fail(UnlockError),
    /// A record: its fields, the value bytes it feeds the authenticator
    /// (in file order, the `End` field's value included), and the position
    /// after the record.
    Got { fields: Map<Kind, FieldV>, mac: Seq<u8>, next: nat },
}

/// Assembles one record: reads fields starting at `pos`, accumulating
/// them by kind (`Unknown` fields are authenticated but not stored),
/// until a field of kind `End`.  A stream that ends after at least one
/// field but before `End` is a parse error.
pub open spec fn spec_record(
    s: Seq<u8>,
    pos: nat,
    reg: Registry,
    fields: Map<Kind, FieldV>,
    mac: Seq<u8>,
    started: bool,
) -> RecParse
    decreases s.len() - pos,
{
    match spec_field(s, pos, reg) {
        FieldParse::NoMore => if started {
            RecParse::Fail(UnlockError::ParseError)
        } else {
            RecParse::NoMore
        },
        FieldParse::Fail(e) => RecParse::Fail(e),
        FieldParse::Got { def, data, value, next } => if def.kind == Kind::End {
            RecParse::Got { fields, mac: mac + value, next }
        } else {
            let fields2 = if def.kind == Kind::Unknown {
                fields
            } else {
                fields.insert(def.kind, FieldV { def, data })
            };
            if pos < next <= s.len() {
                spec_record(s, next, reg, fields2, mac + value, true)
            } else {
                RecParse::Fail(UnlockError::FormatError)
            }
        },
    }
}

/// An assembled record always fits in the stream and advances the position.
pub proof fn lemma_record_advances(
    s: Seq<u8>,
    pos: nat,
    reg: Registry,
    fields: Map<Kind, FieldV>,
    mac: Seq<u8>,
    started: bool,
)
    ensures
        spec_record(s, pos, reg, fields, mac, started) matches RecParse::Got { next, .. }
            ==> pos < next <= s.len(),
    decreases s.len() - pos,
{
    match spec_field(s, pos, reg) {
        FieldParse::Got { def, data, value, next } => {
            lemma_field_advances(s, pos, reg);
            if def.kind != Kind::End {
                let fields2 = if def.kind == Kind::Unknown {
                    fields
                } else {
                    fields.insert(def.kind, FieldV { def, data })
                };
                if pos < next <= s.len() {
                    lemma_record_advances(s, next, reg, fields2, mac + value, true);
                }
            }
        },
        _ => {},
    }
}

/// A record stream that ends inside a field's 4-byte length prefix is a
/// parse error, never a clean end of stream.
pub proof fn lemma_partial_length_prefix_is_parse_error(
    s: Seq<u8>,
    pos: nat,
    reg: Registry,
    fields: Map<Kind, FieldV>,
    mac: Seq<u8>,
    started: bool,
)
    requires
        pos < s.len(),
        s.len() < pos + 4,
    ensures
        spec_field(s, pos, reg) == FieldParse::Fail(UnlockError::ParseError),
        spec_record(s, pos, reg, fields, mac, started) == RecParse::Fail(UnlockError::ParseError),
{
}

/// Assembles one record from the cursor, feeding every field's value bytes
/// to `acc` in file order.  `Ok(None)` is the clean end of the record
/// stream; a stream that ends mid-record is an error.
pub fn parse(c: &mut Cursor, reg: Registry, acc: &mut Vec<u8>) -> (r: Result<
    Option<Item>,
    UnlockError,
>)
    requires
        old(c).wf(),
    ensures
        final(c).wf(),
        final(c).data() == old(c).data(),
        (match spec_record(old(c).data(), old(c).pos(), reg, Map::empty(), Seq::empty(), false) {
            RecParse::NoMore => r matches Ok(None) && final(c).pos() == old(c).pos() && final(acc)@
                == old(acc)@,
            RecParse::Fail(e) => r matches Err(e2) && e2 == e,
            RecParse::Got { fields, mac, next } => r matches Ok(Some(item)) && item@ == fields
                && final(c).pos() == next && final(acc)@ == old(acc)@ + mac,
        }),
{
    let ghost s = old(c).data();
    let ghost pos0 = old(c).pos();
    let ghost acc0 = old(acc)@;
    let mut fields_vec: Vec<Field> = Vec::new();
    let mut started: bool = false;
    let ghost mut mac: Seq<u8> = Seq::empty();
    loop
        invariant
            s == old(c).data(),
            pos0 == old(c).pos(),
            acc0 == old(acc)@,
            c.wf(),
            c.data() == s,
            acc@ == acc0 + mac,
            spec_record(s, pos0, reg, Map::empty(), Seq::empty(), false) == spec_record(
                s,
                c.pos(),
                reg,
                fields_map(fields_vec@),
                mac,
                started,
            ),
            !started ==> c.pos() == pos0 && mac == Seq::<u8>::empty() && fields_vec@.len() == 0,
        decreases s.len() - c.pos(),
    {
        let ghost pre_pos = c.pos();
        let ghost pre_fields = fields_vec@;
        match parse_field(c, reg, acc) {
            Ok(Some(f)) => {
                let ghost step = spec_field(s, pre_pos, reg);
                proof {
                    lemma_field_advances(s, pre_pos, reg);
                    mac = mac + step->value;
                }
                if f.def.kind == Kind::End {
                    return Ok(Some(Item { fields: fields_vec }));
                }
                if f.def.kind != Kind::Unknown {
                    fields_vec.push(f);
                    proof {
                        assert(fields_vec@.drop_last() =~= pre_fields);
                        assert(fields_map(fields_vec@) == fields_map(pre_fields).insert(
                            step->def.kind,
                            FieldV { def: step->def, data: step->data },
                        ));
                    }
                }
                started = true;
            },
            Ok(None) => {
                if started {
                    return Err(UnlockError::ParseError);
                }
                return Ok(None);
            },
            Err(e) => {
                return Err(e);
            },
        }
    }
}

} // verus!
