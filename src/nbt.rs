use vstd::prelude::*;

verus! {

/// A decoded NBT value. Floating-point payloads keep their IEEE-754 bits.
#[derive(Debug, PartialEq)]
pub enum NbtValue {
    Byte(i8),
    Short(i16),
    Int(i32),
    Long(i64),
    /// The bits of an `f32`.
    Float(u32),
    /// The bits of an `f64`.
    Double(u64),
    ByteArray(Vec<i8>),
    String(String),
    List(Vec<NbtValue>),
    /// Named entries in the order they were read.
    Compound(Vec<(String, NbtValue)>),
    IntArray(Vec<i32>),
    LongArray(Vec<i64>),
}

/// The kinds of NBT tags.
#[derive(Debug, Clone, Copy, PartialEq, Eq, Structural)]
pub enum TagType {
    End,
    Byte,
    Short,
    Int,
    Long,
    Float,
    Double,
    ByteArray,
    String,
    List,
    Compound,
    IntArray,
    LongArray,
    Unknown,
}

/// The tag kind with number `b`.
pub open spec fn tag_of(b: u8) -> TagType {
    if b == 0 {
        TagType::End
    } else if b == 1 {
        TagType::Byte
    } else if b == 2 {
        TagType::Short
    } else if b == 3 {
        TagType::Int
    } else if b == 4 {
        TagType::Long
    } else if b == 5 {
        TagType::Float
    } else if b == 6 {
        TagType::Double
    } else if b == 7 {
        TagType::ByteArray
    } else if b == 8 {
        TagType::String
    } else if b == 9 {
        TagType::List
    } else if b == 10 {
        TagType::Compound
    } else if b == 11 {
        TagType::IntArray
    } else if b == 12 {
        TagType::LongArray
    } else {
        TagType::Unknown
    }
}

impl TagType {
    /// The tag kind with number `b`.
    pub fn from_byte(b: u8) -> (r: TagType)
        ensures
            r == tag_of(b),
    {
        match b {
            0 => TagType::End,
            1 => TagType::Byte,
            2 => TagType::Short,
            3 => TagType::Int,
            4 => TagType::Long,
            5 => TagType::Float,
            6 => TagType::Double,
            7 => TagType::ByteArray,
            8 => TagType::String,
            9 => TagType::List,
            10 => TagType::Compound,
            11 => TagType::IntArray,
            12 => TagType::LongArray,
            _ => TagType::Unknown,
        }
    }
}

/// Why an NBT document could not be decoded.
#[derive(Debug, Clone, Copy, PartialEq, Eq, Structural)]
pub enum NbtError {
    /// The bytes end inside a value.
    UnexpectedEnd,
    /// The document does not start with a compound tag.
    NotCompound,
    /// A tag kind that has no payload of its own.
    UnsupportedTag,
}

/// Unsigned big-endian value of some bytes.
pub open spec fn be_unsigned(s: Seq<u8>) -> nat
    decreases s.len(),
{
    if s.len() == 0 {
        0
    } else {
        be_unsigned(s.drop_last()) * 256 + s.last() as nat
    }
}

pub open spec fn pow256(n: nat) -> nat
    decreases n,
{
    if n == 0 {
        1
    } else {
        pow256((n - 1) as nat) * 256
    }
}

/// A big-endian number of `n` bytes is below `256^n`.
pub proof fn lemma_be_unsigned_bound(s: Seq<u8>)
    ensures
        be_unsigned(s) < pow256(s.len()),
    decreases s.len(),
{
    if s.len() > 0 {
        lemma_be_unsigned_bound(s.drop_last());
    }
}

/// Bytes being read, and how many have been read.
pub struct ByteCursor {
    bytes: Vec<u8>,
    pos: usize,
}

impl ByteCursor {
    pub closed spec fn wf(&self) -> bool {
        self.pos <= self.bytes@.len()
    }

    /// Bytes not read yet.
    pub closed spec fn rest(&self) -> Seq<u8> {
        self.bytes@.subrange(self.pos as int, self.bytes@.len() as int)
    }

    /// A cursor at the start of `bytes`.
    pub fn new(bytes: Vec<u8>) -> (r: ByteCursor)
        ensures
            r.wf(),
            r.rest() == bytes@,
    {
        let r = ByteCursor { bytes, pos: 0 };
        assert(r.rest() =~= r.bytes@);
        r
    }

    /// Reads `n` bytes as an unsigned big-endian number.
    pub fn read_be(&mut self, n: usize) -> (r: Option<u64>)
        requires
            old(self).wf(),
            n <= 8,
        ensures
            final(self).wf(),
            old(self).rest().len() < n ==> r is None,
            old(self).rest().len() >= n ==> (r matches Some(v) && v == be_unsigned(
                old(self).rest().subrange(0, n as int),
            ) && final(self).rest() == old(self).rest().subrange(n as int, old(self).rest().len() as int)),
            final(self).rest().len() <= old(self).rest().len(),
    {
        if self.bytes.len() - self.pos < n {
            return None;
        }
        let ghost rest0 = self.rest();
        let start = self.pos;
        let mut acc: u64 = 0;
        let mut i: usize = 0;
        proof {
            reveal_with_fuel(pow256, 9);
        }
        let len = self.bytes.len();
        while i < n
            invariant
                n <= 8,
                len == self.bytes@.len(),
                start + n <= self.bytes@.len(),
                self.pos == start,
                rest0 == self.bytes@.subrange(start as int, self.bytes@.len() as int),
                0 <= i <= n,
                acc == be_unsigned(rest0.subrange(0, i as int)),
                acc < pow256(i as nat),
                pow256(8) == 0x1_0000_0000_0000_0000,
                i < 8 ==> pow256(i as nat) * 256 == pow256(i as nat + 1),
                pow256(i as nat) <= pow256(7) || i == 8,
            decreases n - i,
        {
            proof {
                reveal_with_fuel(pow256, 9);
                assert(rest0.subrange(0, i as int + 1).drop_last() =~= rest0.subrange(0, i as int));
            }
            let b = self.bytes[start + i];
            acc = acc * 256 + b as u64;
            i = i + 1;
        }
        self.pos = start + n;
        assert(self.rest() =~= rest0.subrange(n as int, rest0.len() as int));
        Some(acc)
    }

    /// Reads one byte.
    pub fn read_u8(&mut self) -> (r: Option<u8>)
        requires
            old(self).wf(),
        ensures
            final(self).wf(),
            old(self).rest().len() == 0 <==> r is None,
            r matches Some(v) ==> v == old(self).rest()[0] && final(self).rest() == old(self).rest().drop_first(),
            final(self).rest().len() <= old(self).rest().len(),
    {
        if self.pos < self.bytes.len() {
            let v = self.bytes[self.pos];
            self.pos = self.pos + 1;
            assert(self.rest() =~= old(self).rest().drop_first());
            Some(v)
        } else {
            None
        }
    }
}

fn be_i16(c: &mut ByteCursor) -> (r: Result<i16, NbtError>)
    requires
        old(c).wf(),
    ensures
        final(c).wf(),
        r is Ok ==> final(c).rest() == old(c).rest().subrange(2, old(c).rest().len() as int),
        (old(c).rest().len() >= 2) == (r is Ok),
        r is Err ==> r == Err::<i16, NbtError>(NbtError::UnexpectedEnd),
        r matches Ok(x) ==> x == be_unsigned(old(c).rest().subrange(0, 2)) as u16 as i16,
        r is Ok ==> final(c).rest().len() < old(c).rest().len(),
        final(c).rest().len() <= old(c).rest().len(),
{
    match c.read_be(2) {
        Some(v) => Ok(v as u16 as i16),
        None => Err(NbtError::UnexpectedEnd),
    }
}

fn be_u16(c: &mut ByteCursor) -> (r: Result<u16, NbtError>)
    requires
        old(c).wf(),
    ensures
        final(c).wf(),
        r matches Ok(x) ==> x as int == be_unsigned(old(c).rest().subrange(0, 2)),
        r is Ok ==> final(c).rest() == old(c).rest().subrange(2, old(c).rest().len() as int),
        (old(c).rest().len() >= 2) == (r is Ok),
        r is Err ==> r == Err::<u16, NbtError>(NbtError::UnexpectedEnd),
        r matches Ok(x) ==> x == be_unsigned(old(c).rest().subrange(0, 2)) as u16,
        r is Ok ==> final(c).rest().len() < old(c).rest().len(),
        final(c).rest().len() <= old(c).rest().len(),
{
    proof {
        if old(c).rest().len() >= 2 {
            lemma_be_unsigned_bound(old(c).rest().subrange(0, 2));
            reveal_with_fuel(pow256, 3);
        }
    }
    match c.read_be(2) {
        Some(v) => Ok(v as u16),
        None => Err(NbtError::UnexpectedEnd),
    }
}

fn be_i32(c: &mut ByteCursor) -> (r: Result<i32, NbtError>)
    requires
        old(c).wf(),
    ensures
        final(c).wf(),
        (old(c).rest().len() >= 4) == (r is Ok),
        r is Err ==> r == Err::<i32, NbtError>(NbtError::UnexpectedEnd),
        r matches Ok(x) ==> x == be_unsigned(old(c).rest().subrange(0, 4)) as u32 as i32,
        r is Ok ==> final(c).rest().len() < old(c).rest().len(),
        final(c).rest().len() <= old(c).rest().len(),
{
    match c.read_be(4) {
        Some(v) => Ok(v as u32 as i32),
        None => Err(NbtError::UnexpectedEnd),
    }
}

fn be_u32(c: &mut ByteCursor) -> (r: Result<u32, NbtError>)
    requires
        old(c).wf(),
    ensures
        final(c).wf(),
        (old(c).rest().len() >= 4) == (r is Ok),
        r is Err ==> r == Err::<u32, NbtError>(NbtError::UnexpectedEnd),
        r matches Ok(x) ==> x == be_unsigned(old(c).rest().subrange(0, 4)) as u32,
        r is Ok ==> final(c).rest().len() < old(c).rest().len(),
        final(c).rest().len() <= old(c).rest().len(),
{
    match c.read_be(4) {
        Some(v) => Ok(v as u32),
        None => Err(NbtError::UnexpectedEnd),
    }
}

fn be_i64(c: &mut ByteCursor) -> (r: Result<i64, NbtError>)
    requires
        old(c).wf(),
    ensures
        final(c).wf(),
        (old(c).rest().len() >= 8) == (r is Ok),
        r is Err ==> r == Err::<i64, NbtError>(NbtError::UnexpectedEnd),
        r matches Ok(x) ==> x == be_unsigned(old(c).rest().subrange(0, 8)) as i64,
        r is Ok ==> final(c).rest().len() < old(c).rest().len(),
        final(c).rest().len() <= old(c).rest().len(),
{
    match c.read_be(8) {
        Some(v) => Ok(v as i64),
        None => Err(NbtError::UnexpectedEnd),
    }
}

fn be_u64(c: &mut ByteCursor) -> (r: Result<u64, NbtError>)
    requires
        old(c).wf(),
    ensures
        final(c).wf(),
        (old(c).rest().len() >= 8) == (r is Ok),
        r is Err ==> r == Err::<u64, NbtError>(NbtError::UnexpectedEnd),
        r matches Ok(x) ==> x == be_unsigned(old(c).rest().subrange(0, 8)),
        r is Ok ==> final(c).rest().len() < old(c).rest().len(),
        final(c).rest().len() <= old(c).rest().len(),
{
    match c.read_be(8) {
        Some(v) => Ok(v),
        None => Err(NbtError::UnexpectedEnd),
    }
}

/// The text that some bytes encode in UTF-8, if they are valid UTF-8.
pub uninterp spec fn utf8_text(b: Seq<u8>) -> Option<Seq<char>>;

/// Relies on `String::from_utf8`: the text the bytes encode, or `None` when
/// they are not valid UTF-8.
#[verifier::external_body]
fn decode_utf8(bytes: Vec<u8>) -> (r: Option<String>)
    ensures
        r matches Some(s) ==> utf8_text(bytes@) == Some(s@),
        r is None ==> utf8_text(bytes@) is None,
{
    String::from_utf8(bytes).ok()
}

/// What invalid UTF-8 text reads as.
pub const INVALID_TEXT: &'static str = "Invalid UTF-8 string";

/// The text some bytes encode, or the marker for invalid text.
pub open spec fn text_or_marker(b: Seq<u8>) -> Seq<char> {
    match utf8_text(b) {
        Some(t) => t,
        None => INVALID_TEXT@,
    }
}

/// Reads `n` bytes as UTF-8 text; invalid text reads as a fixed marker.
fn read_text(c: &mut ByteCursor, n: usize) -> (r: Result<String, NbtError>)
    requires
        old(c).wf(),
    ensures
        final(c).wf(),
        final(c).rest().len() <= old(c).rest().len(),
        (old(c).rest().len() >= n) == (r is Ok),
        r is Err ==> r == Err::<String, NbtError>(NbtError::UnexpectedEnd),
        r matches Ok(s) ==> s@ == text_or_marker(old(c).rest().subrange(0, n as int)),
        r is Ok ==> final(c).rest() == old(c).rest().subrange(n as int, old(c).rest().len() as int),
{
    let mut buf: Vec<u8> = Vec::new();
    let mut i: usize = 0;
    while i < n
        invariant
            c.wf(),
            c.rest().len() <= old(c).rest().len(),
            i <= n,
            i <= old(c).rest().len(),
            buf@ == old(c).rest().subrange(0, i as int),
            c.rest() == old(c).rest().subrange(i as int, old(c).rest().len() as int),
        decreases n - i,
    {
        match c.read_u8() {
            Some(b) => buf.push(b),
            None => return Err(NbtError::UnexpectedEnd),
        }
        proof {
            assert(buf@ =~= old(c).rest().subrange(0, i as int + 1));
            assert(c.rest() =~= old(c).rest().subrange(i as int + 1, old(c).rest().len() as int));
        }
        i = i + 1;
    }
    match decode_utf8(buf) {
        Some(s) => Ok(s),
        None => Ok(INVALID_TEXT.to_owned()),
    }
}

/// Decoder of NBT documents.
pub struct NbtReader {}

impl NbtReader {
    pub fn new() -> NbtReader {
        NbtReader {  }
    }

    /// Decodes a document: a named compound tag.
    pub fn parse_nbt(&self, reader: &mut ByteCursor) -> (r: Result<NbtValue, NbtError>)
        requires
            old(reader).wf(),
        ensures
            final(reader).wf(),
            old(reader).rest().len() == 0 ==> r == Err::<NbtValue, NbtError>(NbtError::UnexpectedEnd),
            r is Ok ==> old(reader).rest()[0] == 10,
    {
        let (tag_type, _name) = match self.read_tag(reader) {
            Ok(t) => t,
            Err(e) => return Err(e),
        };
        if tag_type != TagType::Compound {
            return Err(NbtError::NotCompound);
        }
        self.read_compound(reader)
    }

    /// Reads the entries of a compound tag up to its end tag.
    pub fn read_compound(&self, reader: &mut ByteCursor) -> (r: Result<NbtValue, NbtError>)
        requires
            old(reader).wf(),
        ensures
            final(reader).wf(),
            final(reader).rest().len() <= old(reader).rest().len(),
            r is Ok ==> final(reader).rest().len() < old(reader).rest().len(),
        decreases old(reader).rest().len(), 0nat,
    {
        let mut items: Vec<(String, NbtValue)> = Vec::new();
        let ghost start = old(reader).rest().len();
        loop
            invariant
                reader.wf(),
                reader.rest().len() <= start,
                start == old(reader).rest().len(),
            ensures
                reader.wf(),
                reader.rest().len() < start,
            decreases reader.rest().len(),
        {
            let (tag_type, tag_name) = match self.read_tag(reader) {
                Ok(t) => t,
                Err(e) => return Err(e),
            };
            if tag_type == TagType::End {
                break;
            }
            let value = match self.read_tag_payload(tag_type, reader) {
                Ok(v) => v,
                Err(e) => return Err(e),
            };
            items.push((tag_name, value));
        }
        Ok(NbtValue::Compound(items))
    }

    /// Reads the payload of a tag of kind `tag_type`.
    pub fn read_tag_payload(&self, tag_type: TagType, reader: &mut ByteCursor) -> (r: Result<
        NbtValue,
        NbtError,
    >)
        requires
            old(reader).wf(),
        ensures
            final(reader).wf(),
            final(reader).rest().len() <= old(reader).rest().len(),
            r is Ok ==> final(reader).rest().len() < old(reader).rest().len(),
            tag_type == TagType::Byte ==> (old(reader).rest().len() >= 1) == (r is Ok),
            tag_type == TagType::Byte && r is Ok ==> r == Ok::<NbtValue, NbtError>(
                NbtValue::Byte(old(reader).rest()[0] as i8),
            ),
            tag_type == TagType::Short ==> (old(reader).rest().len() >= 2) == (r is Ok),
            tag_type == TagType::Short && r is Ok ==> r == Ok::<NbtValue, NbtError>(
                NbtValue::Short(be_unsigned(old(reader).rest().subrange(0, 2)) as u16 as i16),
            ),
            tag_type == TagType::Int ==> (old(reader).rest().len() >= 4) == (r is Ok),
            tag_type == TagType::Int && r is Ok ==> r == Ok::<NbtValue, NbtError>(
                NbtValue::Int(be_unsigned(old(reader).rest().subrange(0, 4)) as u32 as i32),
            ),
            tag_type == TagType::Long ==> (old(reader).rest().len() >= 8) == (r is Ok),
            tag_type == TagType::Long && r is Ok ==> r == Ok::<NbtValue, NbtError>(
                NbtValue::Long(be_unsigned(old(reader).rest().subrange(0, 8)) as i64),
            ),
            tag_type == TagType::Float ==> (old(reader).rest().len() >= 4) == (r is Ok),
            tag_type == TagType::Float && r is Ok ==> r == Ok::<NbtValue, NbtError>(
                NbtValue::Float(be_unsigned(old(reader).rest().subrange(0, 4)) as u32),
            ),
            tag_type == TagType::Double ==> (old(reader).rest().len() >= 8) == (r is Ok),
            tag_type == TagType::Double && r is Ok ==> r == Ok::<NbtValue, NbtError>(
                NbtValue::Double(be_unsigned(old(reader).rest().subrange(0, 8)) as u64),
            ),
            tag_type == TagType::String && old(reader).rest().len() >= 2 ==> {
                let raw = be_unsigned(old(reader).rest().subrange(0, 2)) as u16 as i16;
                let n = if raw < 0 {
                    0
                } else {
                    raw as int
                };
                &&& (old(reader).rest().len() >= 2 + n) == (r is Ok)
                &&& r is Ok ==> (r matches Ok(NbtValue::String(t)) && t@ == text_or_marker(
                    old(reader).rest().subrange(2, 2 + n),
                ))
            },
            tag_type == TagType::String && old(reader).rest().len() < 2 ==> r is Err,
            tag_type == TagType::End || tag_type == TagType::Unknown ==> r == Err::<
                NbtValue,
                NbtError,
            >(NbtError::UnsupportedTag),
        decreases old(reader).rest().len(), 1nat,
    {
        match tag_type {
            TagType::Byte => match reader.read_u8() {
                Some(v) => Ok(NbtValue::Byte(v as i8)),
                None => Err(NbtError::UnexpectedEnd),
            },
            TagType::Short => match be_i16(reader) {
                Ok(v) => Ok(NbtValue::Short(v)),
                Err(e) => Err(e),
            },
            TagType::Int => match be_i32(reader) {
                Ok(v) => Ok(NbtValue::Int(v)),
                Err(e) => Err(e),
            },
            TagType::Long => match be_i64(reader) {
                Ok(v) => Ok(NbtValue::Long(v)),
                Err(e) => Err(e),
            },
            TagType::Float => match be_u32(reader) {
                Ok(v) => Ok(NbtValue::Float(v)),
                Err(e) => Err(e),
            },
            TagType::Double => match be_u64(reader) {
                Ok(v) => Ok(NbtValue::Double(v)),
                Err(e) => Err(e),
            },
            TagType::ByteArray => {
                let length = match be_i32(reader) {
                    Ok(v) => v,
                    Err(e) => return Err(e),
                };
                let mut array: Vec<i8> = Vec::new();
                let mut i: i32 = 0;
                while i < length
                    invariant
                        tag_type == TagType::ByteArray,
                        reader.wf(),
                        reader.rest().len() < old(reader).rest().len(),
                    decreases length - i,
                {
                    match reader.read_u8() {
                        Some(v) => array.push(v as i8),
                        None => return Err(NbtError::UnexpectedEnd),
                    }
                    i = i + 1;
                }
                Ok(NbtValue::ByteArray(array))
            },
            TagType::String => {
                let length = match be_i16(reader) {
                    Ok(v) => v,
                    Err(e) => return Err(e),
                };
                let n: usize = if length < 0 {
                    0
                } else {
                    length as usize
                };
                proof {
                    let rest0 = old(reader).rest();
                    assert(reader.rest() =~= rest0.subrange(2, rest0.len() as int));
                    if rest0.len() >= 2 + n {
                        assert(reader.rest().subrange(0, n as int) =~= rest0.subrange(2, 2 + n));
                    }
                }
                match read_text(reader, n) {
                    Ok(s) => Ok(NbtValue::String(s)),
                    Err(e) => Err(e),
                }
            },
            TagType::List => {
                let content = match reader.read_u8() {
                    Some(v) => v,
                    None => return Err(NbtError::UnexpectedEnd),
                };
                let length = match be_i32(reader) {
                    Ok(v) => v,
                    Err(e) => return Err(e),
                };
                let mut array: Vec<NbtValue> = Vec::new();
                let mut i: i32 = 0;
                while i < length
                    invariant
                        tag_type == TagType::List,
                        reader.wf(),
                        reader.rest().len() < old(reader).rest().len(),
                    decreases length - i,
                {
                    let content_type = TagType::from_byte(content);
                    match self.read_tag_payload(content_type, reader) {
                        Ok(v) => array.push(v),
                        Err(e) => return Err(e),
                    }
                    i = i + 1;
                }
                Ok(NbtValue::List(array))
            },
            TagType::Compound => self.read_compound(reader),
            TagType::IntArray => {
                let length = match be_i32(reader) {
                    Ok(v) => v,
                    Err(e) => return Err(e),
                };
                let mut array: Vec<i32> = Vec::new();
                let mut i: i32 = 0;
                while i < length
                    invariant
                        tag_type == TagType::IntArray,
                        reader.wf(),
                        reader.rest().len() < old(reader).rest().len(),
                    decreases length - i,
                {
                    match be_i32(reader) {
                        Ok(v) => array.push(v),
                        Err(e) => return Err(e),
                    }
                    i = i + 1;
                }
                Ok(NbtValue::IntArray(array))
            },
            TagType::LongArray => {
                let length = match be_i32(reader) {
                    Ok(v) => v,
                    Err(e) => return Err(e),
                };
                let mut array: Vec<i64> = Vec::new();
                let mut i: i32 = 0;
                while i < length
                    invariant
                        tag_type == TagType::LongArray,
                        reader.wf(),
                        reader.rest().len() < old(reader).rest().len(),
                    decreases length - i,
                {
                    match be_i64(reader) {
                        Ok(v) => array.push(v),
                        Err(e) => return Err(e),
                    }
                    i = i + 1;
                }
                Ok(NbtValue::LongArray(array))
            },
            _ => Err(NbtError::UnsupportedTag),
        }
    }

    /// Reads a tag's kind and, but for an end tag, its name.
    pub fn read_tag(&self, reader: &mut ByteCursor) -> (r: Result<(TagType, String), NbtError>)
        requires
            old(reader).wf(),
        ensures
            final(reader).wf(),
            final(reader).rest().len() <= old(reader).rest().len(),
            r is Ok ==> final(reader).rest().len() < old(reader).rest().len(),
            old(reader).rest().len() == 0 ==> r == Err::<(TagType, String), NbtError>(
                NbtError::UnexpectedEnd,
            ),
            r matches Ok((t, _)) ==> t == tag_of(old(reader).rest()[0]),
            old(reader).rest().len() >= 1 && tag_of(old(reader).rest()[0]) == TagType::End ==> (r
                matches Ok((t, name)) && t == TagType::End && name@ == "End"@),
            old(reader).rest().len() >= 3 && tag_of(old(reader).rest()[0]) != TagType::End ==> {
                let len = be_unsigned(old(reader).rest().subrange(1, 3)) as int;
                &&& (old(reader).rest().len() >= 3 + len) == (r is Ok)
                &&& r matches Ok((_, name)) ==> name@ == text_or_marker(
                    old(reader).rest().subrange(3, 3 + len),
                )
            },
    {
        let tag_type_byte = match reader.read_u8() {
            Some(b) => b,
            None => return Err(NbtError::UnexpectedEnd),
        };
        let tag_type = TagType::from_byte(tag_type_byte);
        if tag_type == TagType::End {
            return Ok((tag_type, "End".to_owned()));
        }
        let ghost rest0 = old(reader).rest();
        proof {
            if rest0.len() >= 3 {
                assert(reader.rest().subrange(0, 2) =~= rest0.subrange(1, 3));
            }
        }
        let name_length = match be_u16(reader) {
            Ok(v) => v,
            Err(e) => return Err(e),
        };
        proof {
            assert(reader.rest() =~= rest0.subrange(3, rest0.len() as int));
            if rest0.len() >= 3 + name_length {
                assert(reader.rest().subrange(0, name_length as int) =~= rest0.subrange(
                    3,
                    3 + name_length,
                ));
            }
        }
        match read_text(reader, name_length as usize) {
            Ok(name) => Ok((tag_type, name)),
            Err(e) => Err(e),
        }
    }
}

} // verus!
