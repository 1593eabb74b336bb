//! The header that every object begins with: `<type> <size>`, then a null
//! byte, then a payload of exactly `<size>` bytes.

use vstd::prelude::*;
use vstd::slice::slice_to_vec;
use vstd::string::{is_ascii_spec_bytes, StringSliceAdditionalSpecFns};
use crate::error::{Error, ErrorView, ObjectType};
use crate::util::{
    bytes_eq, cleave_out_at_value, lemma_split_first_none, lemma_split_first_unique, split_first,
    NUL, SPACE,
};

verus! {

/// `+`, which may stand before the digits of a size.
pub const PLUS: u8 = 0x2b;

/// The digit `0`.
pub const ZERO: u8 = 0x30;

/// The digit `9`.
pub const NINE: u8 = 0x39;

/// The bytes of `blob`.
pub open spec fn blob_word() -> Seq<u8> {
    seq!['b' as u8, 'l' as u8, 'o' as u8, 'b' as u8]
}

/// The bytes of `tree`.
pub open spec fn tree_word() -> Seq<u8> {
    seq!['t' as u8, 'r' as u8, 'e' as u8, 'e' as u8]
}

/// The bytes of `commit`.
pub open spec fn commit_word() -> Seq<u8> {
    seq!['c' as u8, 'o' as u8, 'm' as u8, 'm' as u8, 'i' as u8, 't' as u8]
}

/// The bytes of `tag`.
pub open spec fn tag_word() -> Seq<u8> {
    seq!['t' as u8, 'a' as u8, 'g' as u8]
}

/// The bytes by which an object header names a kind of object.
pub open spec fn type_word(kind: ObjectType) -> Seq<u8> {
    match kind {
        ObjectType::Blob => blob_word(),
        ObjectType::Tree => tree_word(),
        ObjectType::Commit => commit_word(),
        ObjectType::Tag => tag_word(),
    }
}

/// The kind of object that the given bytes name, if any.
pub open spec fn object_type_named(word: Seq<u8>) -> Option<ObjectType> {
    if word == blob_word() {
        Some(ObjectType::Blob)
    } else if word == tree_word() {
        Some(ObjectType::Tree)
    } else if word == commit_word() {
        Some(ObjectType::Commit)
    } else if word == tag_word() {
        Some(ObjectType::Tag)
    } else {
        None
    }
}

/// Tells which kind of object the given bytes name.
pub fn object_type_of(word: &[u8]) -> (r: Option<ObjectType>)
    ensures
        r == object_type_named(word@),
{
    proof {
        reveal_strlit("blob");
        reveal_strlit("tree");
        reveal_strlit("commit");
        reveal_strlit("tag");
        is_ascii_spec_bytes("blob");
        is_ascii_spec_bytes("tree");
        is_ascii_spec_bytes("commit");
        is_ascii_spec_bytes("tag");
        assert("blob".spec_bytes() =~= blob_word());
        assert("tree".spec_bytes() =~= tree_word());
        assert("commit".spec_bytes() =~= commit_word());
        assert("tag".spec_bytes() =~= tag_word());
    }
    if bytes_eq(word, "blob".as_bytes()) {
        Some(ObjectType::Blob)
    } else if bytes_eq(word, "tree".as_bytes()) {
        Some(ObjectType::Tree)
    } else if bytes_eq(word, "commit".as_bytes()) {
        Some(ObjectType::Commit)
    } else if bytes_eq(word, "tag".as_bytes()) {
        Some(ObjectType::Tag)
    } else {
        None
    }
}

/// Every byte of `digits` is a decimal digit.
pub open spec fn all_digits(digits: Seq<u8>) -> bool {
    forall|i: int| 0 <= i < digits.len() ==> ZERO <= #[trigger] digits[i] <= NINE
}

/// The number that decimal digits stand for, the most significant first.
pub open spec fn digits_value(digits: Seq<u8>) -> nat
    decreases digits.len(),
{
    if digits.len() == 0 {
        0
    } else {
        digits_value(digits.drop_last()) * 10 + (digits.last() - ZERO) as nat
    }
}

/// The digits of a size: the text itself, or what follows its leading `+`.
pub open spec fn size_digits(text: Seq<u8>) -> Seq<u8> {
    if text.len() > 0 && text[0] == PLUS {
        text.skip(1)
    } else {
        text
    }
}

/// The number that `text` states: at least one decimal digit, with or without
/// a `+` before them, and a value that fits 64 bits. Any other text states no
/// number.
pub open spec fn decimal_value(text: Seq<u8>) -> Option<u64> {
    let digits = size_digits(text);
    if digits.len() > 0 && all_digits(digits) && digits_value(digits) <= u64::MAX {
        Some(digits_value(digits) as u64)
    } else {
        None
    }
}

/// The value of the first `i` digits is at most the value of the first `j`.
pub proof fn lemma_digits_value_grows(digits: Seq<u8>, i: int, j: int)
    requires
        all_digits(digits),
        0 <= i <= j <= digits.len(),
    ensures
        digits_value(digits.take(i)) <= digits_value(digits.take(j)),
    decreases j - i,
{
    if i < j {
        lemma_digits_value_grows(digits, i, j - 1);
        assert(digits.take(j).drop_last() =~= digits.take(j - 1));
        assert(digits.take(j).last() == digits[j - 1]);
    }
}

/// Reads a decimal number of at most 64 bits.
pub fn parse_decimal(text: &[u8]) -> (r: Option<u64>)
    ensures
        r == decimal_value(text@),
{
    let start: usize = if text.len() > 0 && text[0] == PLUS {
        1
    } else {
        0
    };
    let ghost digits = size_digits(text@);
    assert(digits == text@.skip(start as int));
    if start == text.len() {
        return None;
    }
    let mut value: u64 = 0;
    let mut i: usize = start;
    while i < text.len()
        invariant
            start <= i <= text.len(),
            digits == size_digits(text@),
            digits == text@.skip(start as int),
            all_digits(digits.take(i - start)),
            value == digits_value(digits.take(i - start)),
        decreases text.len() - i,
    {
        let c = text[i];
        if c < ZERO || c > NINE {
            assert(digits[i - start] == c);
            return None;
        }
        let d: u64 = (c - ZERO) as u64;
        let ghost next = digits.take(i - start + 1);
        assert(next.drop_last() =~= digits.take(i - start));
        assert(next.last() == c);
        assert(digits_value(next) == value * 10 + d);
        if value > (u64::MAX - d) / 10 {
            proof {
                if all_digits(digits) {
                    lemma_digits_value_grows(digits, i - start + 1, digits.len() as int);
                    assert(digits.take(digits.len() as int) =~= digits);
                }
            }
            return None;
        }
        value = value * 10 + d;
        i += 1;
    }
    assert(digits.take(i - start) =~= digits);
    Some(value)
}

/// What reading the header of an object gives: the payload and the kind of
/// the object.
///
/// The header ends at the first null byte. The first space in it parts the
/// type from the size; the type is one of `blob`, `tree`, `commit` and `tag`;
/// the size is a decimal number, and the payload has exactly that many bytes.
/// The failures are tried in the order in which they are written here.
pub open spec fn object_header_outcome(buf: Seq<u8>) -> Result<(Seq<u8>, ObjectType), ErrorView> {
    match split_first(buf, NUL) {
        None => Err(ErrorView::MissingNullTerminator),
        Some((header, payload)) => match split_first(header, SPACE) {
            None => Err(ErrorView::MalformedHeader),
            Some((word, size)) => match object_type_named(word) {
                None => Err(ErrorView::UnknownObjectType(word)),
                Some(kind) => match decimal_value(size) {
                    None => Err(ErrorView::InvalidSizeField),
                    Some(declared) => if payload.len() != declared {
                        Err(
                            ErrorView::SizeMismatch {
                                declared,
                                actual: payload.len() as usize,
                            },
                        )
                    } else {
                        Ok((payload, kind))
                    },
                },
            },
        },
    }
}

/// Reads the header of a serialized object, and returns the payload and the
/// kind of the object.
pub fn parse_object_header<'a>(buf: &'a [u8]) -> (r: Result<(&'a [u8], ObjectType), Error>)
    ensures
        match r {
            Ok((payload, kind)) => object_header_outcome(buf@) == Ok::<
                (Seq<u8>, ObjectType),
                ErrorView,
            >((payload@, kind)),
            Err(e) => object_header_outcome(buf@) == Err::<(Seq<u8>, ObjectType), ErrorView>(e@),
        },
        !buf@.contains(NUL) ==> r is Err && r->Err_0@ == ErrorView::MissingNullTerminator,
{
    let (header, bytes) = match cleave_out_at_value(buf, NUL) {
        Some(parts) => parts,
        None => return Err(Error::MissingNullTerminator),
    };
    let (type_, size) = match cleave_out_at_value(header, SPACE) {
        Some(parts) => parts,
        None => return Err(Error::MalformedHeader),
    };
    let obj_type = match object_type_of(type_) {
        Some(kind) => kind,
        None => return Err(Error::UnknownObjectType(slice_to_vec(type_))),
    };
    let size = match parse_decimal(size) {
        Some(n) => n,
        None => return Err(Error::InvalidSizeField),
    };
    if (bytes.len() as u64) != size {
        return Err(Error::SizeMismatch { declared: size, actual: bytes.len() });
    }
    Ok((bytes, obj_type))
}

/// The bytes of an object with the given type word, size text and payload.
pub open spec fn object_bytes(word: Seq<u8>, size: Seq<u8>, payload: Seq<u8>) -> Seq<u8> {
    word + seq![SPACE] + size + seq![NUL] + payload
}

/// A buffer without a null byte is refused for that reason, whatever else it
/// holds.
pub proof fn lemma_missing_null_terminator(buf: Seq<u8>)
    requires
        !buf.contains(NUL),
    ensures
        object_header_outcome(buf) == Err::<(Seq<u8>, ObjectType), ErrorView>(
            ErrorView::MissingNullTerminator,
        ),
{
    lemma_split_first_none(buf, NUL);
}

/// An object whose header is well-formed, with one of the four type words and
/// a size text that states a number, is accepted exactly when its payload has
/// as many bytes as the size states.
pub proof fn lemma_header_decodes(kind: ObjectType, size: Seq<u8>, payload: Seq<u8>)
    requires
        decimal_value(size) is Some,
    ensures
        ({
            let declared = decimal_value(size).unwrap();
            object_header_outcome(object_bytes(type_word(kind), size, payload)) == if payload.len()
                == declared {
                Ok::<(Seq<u8>, ObjectType), ErrorView>((payload, kind))
            } else {
                Err(ErrorView::SizeMismatch { declared, actual: payload.len() as usize })
            }
        }),
{
    let word = type_word(kind);
    let header = word + seq![SPACE] + size;
    let buf = object_bytes(word, size, payload);
    assert(buf =~= header + seq![NUL] + payload);
    assert(!size.contains(NUL) && !size.contains(SPACE)) by {
        let digits = size_digits(size);
        assert forall|i: int| 0 <= i < size.len() implies size[i] != NUL && size[i] != SPACE by {
            if size[0] == PLUS {
                if i > 0 {
                    assert(digits[i - 1] == size[i]);
                }
            } else {
                assert(digits[i] == size[i]);
            }
        }
    }
    assert(!word.contains(NUL) && !word.contains(SPACE));
    assert(!header.contains(NUL)) by {
        if header.contains(NUL) {
            let i = choose|i: int| 0 <= i < header.len() && header[i] == NUL;
            if i < word.len() {
                assert(word.contains(word[i]));
            } else if i > word.len() {
                assert(size.contains(size[i - word.len() - 1]));
            }
        }
    }
    lemma_split_first_unique(header, NUL, payload);
    lemma_split_first_unique(word, SPACE, size);
    assert(object_type_named(word) == Some(kind));
}

/// An object whose header is well-formed and states the size `declared`,
/// while its payload has another number of bytes, is refused with both the
/// stated and the true length.
pub proof fn lemma_size_is_checked(kind: ObjectType, size: Seq<u8>, payload: Seq<u8>)
    requires
        decimal_value(size) is Some,
        payload.len() != decimal_value(size).unwrap(),
        payload.len() <= usize::MAX,
    ensures
        object_header_outcome(object_bytes(type_word(kind), size, payload)) matches Err(
            ErrorView::SizeMismatch { declared, actual },
        ) && declared == decimal_value(size).unwrap() && actual == payload.len(),
{
    lemma_header_decodes(kind, size, payload);
}

} // verus!
