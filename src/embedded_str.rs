use vstd::prelude::*;
use vstd::utf8::*;
use vstd::string::*;

verus! {

broadcast use vstd::utf8::group_utf8_lib;

/// The character an `EmbeddedStr` shows for `c`: the character itself when
/// its UTF-8 form fits in three bytes, a space otherwise.
pub open spec fn shown_char(c: char) -> char {
    if (c as u32) < 0x10000 {
        c
    } else {
        ' '
    }
}

/// One character stored inline as at most three UTF-8 bytes.
///
/// Characters whose encoding needs four bytes are replaced by a space.
#[derive(Debug, Clone, Copy)]
pub struct EmbeddedStr {
    bytes: [u8; 3],
    len: u8,
}

impl View for EmbeddedStr {
    type V = Seq<char>;

    closed spec fn view(&self) -> Seq<char> {
        decode_utf8(self.encoded())
    }
}

impl EmbeddedStr {
    /// The bytes in use.
    pub closed spec fn encoded(&self) -> Seq<u8> {
        self.bytes@.subrange(0, self.len as int)
    }

    /// The number of bytes in use, as a specification value.
    pub closed spec fn byte_len(&self) -> int {
        self.len as int
    }

    /// The stored bytes, as a specification value.
    pub closed spec fn raw_bytes(&self) -> Seq<u8> {
        self.bytes@
    }

    #[verifier::type_invariant]
    spec fn holds_one_char(&self) -> bool {
        &&& 1 <= self.len <= 3
        &&& exists|c: char| self.encoded() == encode_utf8(seq![c])
    }

    /// Stores `symbol`, or a space where `symbol` takes four bytes.
    pub fn new(symbol: char) -> (r: Self)
        ensures
            r.holds(symbol),
    {
        let r = Self::from(symbol);
        proof {
            lemma_from_char(symbol);
        }
        r
    }

    /// `self` is what `symbol` is stored as: the UTF-8 form of the shown
    /// character, padded with zero bytes.
    pub open spec fn holds(&self, symbol: char) -> bool {
        &&& self@ == seq![shown_char(symbol)]
        &&& self.byte_len() == encode_utf8(seq![shown_char(symbol)]).len()
        &&& self.raw_bytes() == padded(encode_utf8(seq![shown_char(symbol)]))
    }

    /// The stored character as a string slice.
    pub fn as_str(&self) -> (r: &str)
        ensures
            r@ == self@,
    {
        proof {
            use_type_invariant(self);
        }
        let all = vstd::array::array_as_slice(&self.bytes);
        let used = vstd::slice::slice_subrange(all, 0, self.len as usize);
        proof {
            let c = choose|c: char| self.encoded() == encode_utf8(seq![c]);
            assert(used@ == self.encoded());
        }
        str_from_utf8(used)
    }

    /// The number of bytes in use.
    pub fn len(&self) -> (r: u8)
        ensures
            r as int == self.byte_len(),
            1 <= r <= 3,
    {
        proof {
            use_type_invariant(self);
        }
        self.len
    }

    /// The stored bytes; those past `len()` are zero.
    pub fn bytes(&self) -> (r: [u8; 3])
        ensures
            r@ == self.raw_bytes(),
    {
        self.bytes
    }
}

/// `b` followed by zero bytes up to a length of three.
pub open spec fn padded(b: Seq<u8>) -> Seq<u8> {
    b + Seq::new((3 - b.len()) as nat, |i: int| 0u8)
}

/// The stored form of `c`, as an array.
spec fn embed_bytes(c: char) -> [u8; 3] {
    let e = encode_utf8(seq![shown_char(c)]);
    [e[0], if e.len() > 1 { e[1] } else { 0 }, if e.len() > 2 { e[2] } else { 0 }]
}

impl vstd::std_specs::convert::FromSpecImpl<char> for EmbeddedStr {
    open spec fn obeys_from_spec() -> bool {
        true
    }

    closed spec fn from_spec(c: char) -> Self {
        EmbeddedStr { bytes: embed_bytes(c), len: encode_utf8(seq![shown_char(c)]).len() as u8 }
    }
}

/// The UTF-8 form of a single character is the encoding of its scalar value.
proof fn lemma_encode_one(c: char)
    ensures
        encode_utf8(seq![c]) == encode_scalar(c as u32),
        1 <= encode_utf8(seq![c]).len() <= 4,
        encode_utf8(seq![c]).len() <= 3 <==> (c as u32) < 0x10000,
{
    assert(seq![c].drop_first() =~= Seq::<char>::empty());
    assert(encode_utf8(Seq::<char>::empty()) =~= Seq::<u8>::empty());
    assert(encode_scalar(c as u32) + Seq::<u8>::empty() =~= encode_scalar(c as u32));
}

/// What `EmbeddedStr::from(c)` holds.
pub proof fn lemma_from_char(c: char)
    ensures
        <EmbeddedStr as vstd::std_specs::convert::FromSpec<char>>::from_spec(c).holds(c),
{
    let s = shown_char(c);
    lemma_encode_one(s);
    let e = encode_utf8(seq![s]);
    let r = <EmbeddedStr as vstd::std_specs::convert::FromSpec<char>>::from_spec(c);
    assert(r.raw_bytes() =~= padded(e));
    assert(r.encoded() =~= e);
}

impl From<char> for EmbeddedStr {
    fn from(c: char) -> (r: Self) {
        let v = c as u32;
        proof {
            lemma_encode_one(c);
            lemma_encode_one(' ');
            assert(' ' as u32 == 0x20);
            assert(0x20u32 & 0x7F == 0x20) by (bit_vector);
        }
        let (bytes, len): ([u8; 3], u8) = if v < 0x80 {
            assert((v & 0x7F) == v) by (bit_vector)
                requires
                    v < 0x80,
            ;
            ([(v & 0x7F) as u8, 0, 0], 1)
        } else if v < 0x800 {
            assert(((v >> 6) & 0x1F) < 0x100 && (v & 0x3F) < 0x100) by (bit_vector);
            ([0xC0 | ((v >> 6) & 0x1F) as u8, 0x80 | (v & 0x3F) as u8, 0], 2)
        } else if v < 0x10000 {
            assert(((v >> 12) & 0x0F) < 0x100 && ((v >> 6) & 0x3F) < 0x100 && (v & 0x3F)
                < 0x100) by (bit_vector);
            (
                [
                    0xE0 | ((v >> 12) & 0x0F) as u8,
                    0x80 | ((v >> 6) & 0x3F) as u8,
                    0x80 | (v & 0x3F) as u8,
                ],
                3,
            )
        } else {
            ([0x20, 0, 0], 1)
        };
        proof {
            assert(bytes@.subrange(0, len as int) =~= encode_utf8(seq![shown_char(c)]));
            assert(bytes =~= embed_bytes(c));
        }
        EmbeddedStr { bytes, len }
    }
}

/// The character an `EmbeddedStr` built from `s` is made from: the first
/// character of `s`, or a space when `s` is empty.
pub open spec fn first_char_or_space(s: Seq<char>) -> char {
    if s.len() == 0 {
        ' '
    } else {
        s[0]
    }
}

impl<'a> vstd::std_specs::convert::FromSpecImpl<&'a str> for EmbeddedStr {
    open spec fn obeys_from_spec() -> bool {
        true
    }

    open spec fn from_spec(s: &'a str) -> Self {
        <EmbeddedStr as vstd::std_specs::convert::FromSpec<char>>::from_spec(
            first_char_or_space(s@),
        )
    }
}

impl<'a> From<&'a str> for EmbeddedStr {
    fn from(s: &'a str) -> (r: Self) {
        if s.is_empty() {
            EmbeddedStr::from(' ')
        } else {
            EmbeddedStr::from(s.get_char(0))
        }
    }
}

impl AsRef<str> for EmbeddedStr {
    fn as_ref(&self) -> (r: &str)
        ensures
            r@ == self@,
    {
        self.as_str()
    }
}

/// Relies on `core::str::from_utf8`: valid UTF-8 comes back as a `str` over
/// the same bytes.
#[verifier::external_body]
fn str_from_utf8(b: &[u8]) -> (r: &str)
    requires
        valid_utf8(b@),
    ensures
        r.spec_bytes() == b@,
{
    core::str::from_utf8(b).unwrap()
}

} // verus!
