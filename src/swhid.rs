//! SoftWare Heritage persistent IDentifiers, in their textual form
//! `swh:1:<type>:<40 hexadecimal digits>`.

use vstd::prelude::*;
use vstd::string::StringSliceAdditionalSpecFns;

use crate::keys::Sha1Git;

verus! {

/// The type of an object of the graph.
#[derive(Clone, Copy, Debug, PartialEq, Eq, Structural, Hash)]
pub enum NodeType {
    Content,
    Directory,
    Revision,
    Release,
    Snapshot,
    Origin,
}

/// A SWHID: the version of its scheme, the type of the object, its hash.
#[derive(Clone, Copy, Debug)]
pub struct Swhid {
    pub namespace_version: u8,
    pub node_type: NodeType,
    pub hash: Sha1Git,
}

/// The three letters that name a type in a SWHID.
pub open spec fn type_tag(t: NodeType) -> Seq<u8> {
    match t {
        NodeType::Content => seq![99u8, 110u8, 116u8],
        NodeType::Directory => seq![100u8, 105u8, 114u8],
        NodeType::Revision => seq![114u8, 101u8, 118u8],
        NodeType::Release => seq![114u8, 101u8, 108u8],
        NodeType::Snapshot => seq![115u8, 110u8, 112u8],
        NodeType::Origin => seq![111u8, 114u8, 105u8],
    }
}

/// The type that three letters name, if any.
pub open spec fn type_of_tag(tag: Seq<u8>) -> Option<NodeType> {
    if tag == type_tag(NodeType::Content) {
        Some(NodeType::Content)
    } else if tag == type_tag(NodeType::Directory) {
        Some(NodeType::Directory)
    } else if tag == type_tag(NodeType::Revision) {
        Some(NodeType::Revision)
    } else if tag == type_tag(NodeType::Release) {
        Some(NodeType::Release)
    } else if tag == type_tag(NodeType::Snapshot) {
        Some(NodeType::Snapshot)
    } else if tag == type_tag(NodeType::Origin) {
        Some(NodeType::Origin)
    } else {
        None
    }
}

/// The lower-case hexadecimal digit of a value below 16.
pub open spec fn hex_digit(v: u8) -> u8 {
    if v < 10 {
        (48u8 + v) as u8
    } else {
        (97u8 + v - 10) as u8
    }
}

/// Whether a byte is a lower-case hexadecimal digit.
pub open spec fn is_hex_digit(c: u8) -> bool {
    (48u8 <= c <= 57u8) || (97u8 <= c <= 102u8)
}

/// The value of a lower-case hexadecimal digit.
pub open spec fn hex_value(c: u8) -> u8 {
    if c <= 57u8 {
        (c - 48u8) as u8
    } else {
        (c - 97u8 + 10) as u8
    }
}

/// Two hexadecimal digits per byte, high half first.
pub open spec fn hex_of(bytes: Seq<u8>) -> Seq<u8> {
    Seq::new(
        2 * bytes.len(),
        |i: int|
            if i % 2 == 0 {
                hex_digit(bytes[i / 2] / 16)
            } else {
                hex_digit(bytes[i / 2] % 16)
            },
    )
}

/// The bytes that pairs of hexadecimal digits write.
pub open spec fn bytes_of_hex(digits: Seq<u8>) -> Seq<u8> {
    Seq::new(
        digits.len() / 2,
        |i: int| (hex_value(digits[2 * i]) * 16 + hex_value(digits[2 * i + 1])) as u8,
    )
}

/// `swh:`
pub open spec fn scheme_prefix() -> Seq<u8> {
    seq![115u8, 119u8, 104u8, 58u8]
}

/// The decimal digits of a number, without leading zeros.
pub open spec fn decimal(v: u8) -> Seq<u8> {
    if v < 10 {
        seq![(48 + v) as u8]
    } else if v < 100 {
        seq![(48 + v / 10) as u8, (48 + v % 10) as u8]
    } else {
        seq![(48 + v / 100) as u8, (48 + (v / 10) % 10) as u8, (48 + v % 10) as u8]
    }
}

/// The textual form of a SWHID: scheme, version, type and hash.
pub open spec fn swhid_text(s: Swhid) -> Seq<u8> {
    scheme_prefix() + decimal(s.namespace_version) + seq![58u8] + type_tag(s.node_type) + seq![58u8]
        + hex_of(s.hash.0@)
}

/// Every byte of a SWHID's textual form is ASCII.
pub proof fn lemma_swhid_text_ascii(s: Swhid)
    ensures
        forall|i: int| 0 <= i < swhid_text(s).len() ==> #[trigger] swhid_text(s)[i] < 128,
{
    let head = scheme_prefix() + decimal(s.namespace_version) + seq![58u8] + type_tag(s.node_type)
        + seq![58u8];
    let hex = hex_of(s.hash.0@);
    assert(swhid_text(s) == head + hex);
    assert forall|i: int| 0 <= i < head.len() implies #[trigger] head[i] < 128 by {
        let a = scheme_prefix();
        let b = decimal(s.namespace_version);
        let c = type_tag(s.node_type);
        if i < a.len() {
        } else if i < a.len() + b.len() {
            assert(head[i] == b[i - a.len()]);
        } else if i < a.len() + b.len() + 1 {
        } else if i < a.len() + b.len() + 1 + c.len() {
            assert(head[i] == c[i - a.len() - b.len() - 1]);
        }
    }
    assert forall|i: int| 0 <= i < swhid_text(s).len() implies #[trigger] swhid_text(s)[i] < 128 by {
        if i >= head.len() {
            assert(swhid_text(s)[i] == hex[i - head.len()]);
        } else {
            assert(swhid_text(s)[i] == head[i]);
        }
    }
}

/// Whether a text is a SWHID of version 1 in its textual form.
pub open spec fn is_swhid_text(text: Seq<u8>) -> bool {
    &&& text.len() == 50
    &&& text.subrange(0, 4) == scheme_prefix()
    &&& text[4] == 49u8
    &&& text[5] == 58u8
    &&& type_of_tag(text.subrange(6, 9)) is Some
    &&& text[9] == 58u8
    &&& forall|i: int| 10 <= i < 50 ==> is_hex_digit(#[trigger] text[i])
}

/// Whether `s` is the SWHID that a valid text reads as.
pub open spec fn reads_as(text: Seq<u8>, s: Swhid) -> bool {
    &&& is_swhid_text(text)
    &&& s.namespace_version == 1
    &&& Some(s.node_type) == type_of_tag(text.subrange(6, 9))
    &&& s.hash.0@ == bytes_of_hex(text.subrange(10, 50))
}


/// The type that the three bytes at `at` name, if any.
fn parse_tag(b: &[u8], at: usize) -> (r: Option<NodeType>)
    requires
        at + 3 <= b@.len(),
    ensures
        r == type_of_tag(b@.subrange(at as int, at + 3)),
{
    let ghost tag = b@.subrange(at as int, at + 3);
    let (x, y, z) = (b[at], b[at + 1], b[at + 2]);
    assert(tag =~= seq![x, y, z]);
    if x == 99 && y == 110 && z == 116 {
        assert(tag =~= type_tag(NodeType::Content));
        Some(NodeType::Content)
    } else if x == 100 && y == 105 && z == 114 {
        assert(tag =~= type_tag(NodeType::Directory));
        Some(NodeType::Directory)
    } else if x == 114 && y == 101 && z == 118 {
        assert(tag =~= type_tag(NodeType::Revision));
        Some(NodeType::Revision)
    } else if x == 114 && y == 101 && z == 108 {
        assert(tag =~= type_tag(NodeType::Release));
        Some(NodeType::Release)
    } else if x == 115 && y == 110 && z == 112 {
        assert(tag =~= type_tag(NodeType::Snapshot));
        Some(NodeType::Snapshot)
    } else if x == 111 && y == 114 && z == 105 {
        assert(tag =~= type_tag(NodeType::Origin));
        Some(NodeType::Origin)
    } else {
        None
    }
}

impl NodeType {
    /// The type that a three-letter tag (`cnt`, `dir`, ...) names, if any.
    pub fn from_tag(tag: &[u8]) -> (r: Option<NodeType>)
        ensures
            r == (if tag@.len() == 3 {
                type_of_tag(tag@)
            } else {
                None
            }),
    {
        if tag.len() != 3 {
            return None;
        }
        assert(tag@.subrange(0, 3) =~= tag@);
        parse_tag(tag, 0)
    }
}

/// The value of a hexadecimal digit, if the byte is one.
fn parse_hex_digit(c: u8) -> (r: Option<u8>)
    ensures
        r is Some <==> is_hex_digit(c),
        r matches Some(v) ==> v == hex_value(c) && v < 16,
{
    if 48 <= c && c <= 57 {
        Some(c - 48)
    } else if 97 <= c && c <= 102 {
        Some(c - 97 + 10)
    } else {
        None
    }
}

/// The hexadecimal digit of a value below 16.
fn to_hex_digit(v: u8) -> (r: u8)
    requires
        v < 16,
    ensures
        r == hex_digit(v),
{
    if v < 10 {
        48 + v
    } else {
        97 + v - 10
    }
}

/// Parses the textual form of a SWHID.
pub fn parse_swhid(text: &str) -> (r: Option<Swhid>)
    ensures
        r is Some <==> is_swhid_text(text.spec_bytes()),
        r matches Some(s) ==> reads_as(text.spec_bytes(), s),
{
    let b = text.as_bytes();
    if b.len() != 50 {
        return None;
    }
    if !(b[0] == 115 && b[1] == 119 && b[2] == 104 && b[3] == 58) {
        assert(!(b@.subrange(0, 4) =~= scheme_prefix())) by {
            if b@.subrange(0, 4) =~= scheme_prefix() {
                assert(b@.subrange(0, 4)[0] == b@[0]);
                assert(b@.subrange(0, 4)[1] == b@[1]);
                assert(b@.subrange(0, 4)[2] == b@[2]);
                assert(b@.subrange(0, 4)[3] == b@[3]);
            }
        }
        return None;
    }
    assert(b@.subrange(0, 4) =~= scheme_prefix());
    if b[4] != 49 || b[5] != 58 || b[9] != 58 {
        return None;
    }
    let node_type = match parse_tag(b, 6) {
        None => {
            return None;
        },
        Some(t) => t,
    };
    let ghost digits = b@.subrange(10, 50);
    let mut hash: [u8; 20] = [0u8; 20];
    let mut i: usize = 0;
    while i < 20
        invariant
            b@.len() == 50,
            b@ == text.spec_bytes(),
            digits == b@.subrange(10, 50),
            i <= 20,
            forall|k: int| 10 <= k < 10 + 2 * i ==> is_hex_digit(#[trigger] b@[k]),
            forall|k: int| 0 <= k < i ==> #[trigger] hash@[k] == bytes_of_hex(digits)[k],
        decreases 20 - i,
    {
        let hi = match parse_hex_digit(b[10 + 2 * i]) {
            None => {
                assert(!is_hex_digit(b@[10 + 2 * i as int]));
                return None;
            },
            Some(v) => v,
        };
        let lo = match parse_hex_digit(b[11 + 2 * i]) {
            None => {
                assert(!is_hex_digit(b@[11 + 2 * i as int]));
                return None;
            },
            Some(v) => v,
        };
        hash[i] = hi * 16 + lo;
        assert(digits[2 * i as int] == b@[10 + 2 * i]);
        assert(digits[2 * i + 1] == b@[11 + 2 * i]);
        i = i + 1;
    }
    assert(hash@ =~= bytes_of_hex(digits));
    Some(Swhid { namespace_version: 1, node_type, hash: Sha1Git(hash) })
}

/// Relies on `String::from_utf8`: ASCII bytes are valid UTF-8, and each is
/// one character.
#[verifier::external_body]
fn ascii_string(bytes: Vec<u8>) -> (r: String)
    requires
        forall|i: int| 0 <= i < bytes@.len() ==> #[trigger] bytes@[i] < 128,
    ensures
        r@ == bytes@.map_values(|c: u8| c as char),
{
    String::from_utf8(bytes).unwrap()
}

/// The three letters that name a type.
fn tag_bytes(t: NodeType) -> (r: [u8; 3])
    ensures
        r@ == type_tag(t),
{
    let r = match t {
        NodeType::Content => [99u8, 110u8, 116u8],
        NodeType::Directory => [100u8, 105u8, 114u8],
        NodeType::Revision => [114u8, 101u8, 118u8],
        NodeType::Release => [114u8, 101u8, 108u8],
        NodeType::Snapshot => [115u8, 110u8, 112u8],
        NodeType::Origin => [111u8, 114u8, 105u8],
    };
    assert(r@ =~= type_tag(t));
    r
}

impl Swhid {
    /// The textual form of the SWHID, as bytes.
    pub fn to_text(&self) -> (r: Vec<u8>)
        ensures
            r@ == swhid_text(*self),
    {
        let mut out: Vec<u8> = vec![115u8, 119u8, 104u8, 58u8];
        let v = self.namespace_version;
        if v < 10 {
            out.push(48 + v);
        } else if v < 100 {
            out.push(48 + v / 10);
            out.push(48 + v % 10);
        } else {
            out.push(48 + v / 100);
            out.push(48 + (v / 10) % 10);
            out.push(48 + v % 10);
        }
        assert(out@ =~= scheme_prefix() + decimal(v));
        out.push(58u8);
        let tag = tag_bytes(self.node_type);
        out.push(tag[0]);
        out.push(tag[1]);
        out.push(tag[2]);
        out.push(58u8);
        let ghost head = out@;
        assert(head =~= scheme_prefix() + decimal(v) + seq![58u8] + type_tag(self.node_type) + seq![58u8]);
        let mut i: usize = 0;
        while i < 20
            invariant
                i <= 20,
                out@ =~= head + hex_of(self.hash.0@).subrange(0, 2 * i),
            decreases 20 - i,
        {
            let byte = self.hash.0[i];
            out.push(to_hex_digit(byte / 16));
            out.push(to_hex_digit(byte % 16));
            i = i + 1;
        }
        assert(hex_of(self.hash.0@).subrange(0, 40) =~= hex_of(self.hash.0@));
        out
    }

    /// The textual form of the SWHID.
    pub fn to_string(&self) -> (r: String)
        ensures
            r@ == swhid_text(*self).map_values(|c: u8| c as char),
    {
        let text = self.to_text();
        proof {
            lemma_swhid_text_ascii(*self);
        }
        ascii_string(text)
    }
}

} // verus!
