//! The person and date held by the `author` and `committer` fields of a
//! commit: `<name> <<email>> <timestamp> <timezone>`.

use vstd::prelude::*;
use vstd::slice::slice_subrange;
use vstd::utf8::{decode_utf8, encode_utf8_decode_utf8, valid_utf8};
use crate::error::{Error, ErrorView};
use crate::foreign::str_from_utf8;
use crate::util::{
    cleave_out_at_value, lemma_split_first_some, lemma_split_first_unique, split_first, SPACE,
};

verus! {

/// `<`, which opens the email address.
pub const OPEN_ANGLE: u8 = 0x3c;

/// `>`, which closes the email address.
pub const CLOSE_ANGLE: u8 = 0x3e;

/// Who made a change and when. The timestamp and the time zone are kept as
/// the text that the commit holds; neither is read as a number.
#[derive(Clone, Debug, PartialEq, Eq)]
pub struct UserInfo {
    pub name: String,
    pub email: String,
    pub timestamp: String,
    pub timezone: String,
}

/// A [`UserInfo`] as a mathematical value.
pub struct UserInfoView {
    pub name: Seq<char>,
    pub email: Seq<char>,
    pub timestamp: Seq<char>,
    pub timezone: Seq<char>,
}

impl View for UserInfo {
    type V = UserInfoView;

    open spec fn view(&self) -> UserInfoView {
        UserInfoView {
            name: self.name@,
            email: self.email@,
            timestamp: self.timestamp@,
            timezone: self.timezone@,
        }
    }
}

/// The four parts of the value of an `author` or `committer` field, as bytes:
/// name, email, timestamp and time zone.
///
/// The name is what stands before the first `<`, without the space that must
/// end it; the email is what follows up to the next `>`; after one space, the
/// timestamp runs up to the next space and the time zone to the end. The
/// failures are tried in the order in which they are written here.
pub open spec fn user_info_parts(value: Seq<u8>) -> Result<
    (Seq<u8>, Seq<u8>, Seq<u8>, Seq<u8>),
    ErrorView,
> {
    match split_first(value, OPEN_ANGLE) {
        None => Err(ErrorView::MissingEmailOpenBracket),
        Some((name_part, rest)) => if name_part.len() == 0 || name_part.last() != SPACE {
            Err(ErrorView::MissingSpaceBeforeEmail)
        } else {
            match split_first(rest, CLOSE_ANGLE) {
                None => Err(ErrorView::MissingEmailCloseBracket),
                Some((email, date_part)) => if date_part.len() == 0 || date_part[0] != SPACE {
                    Err(ErrorView::MissingSpaceAfterEmail)
                } else {
                    match split_first(date_part.skip(1), SPACE) {
                        None => Err(ErrorView::MalformedDateField),
                        Some((timestamp, timezone)) => Ok(
                            (name_part.drop_last(), email, timestamp, timezone),
                        ),
                    }
                },
            }
        },
    }
}

/// The person and date whose four parts are the text of the given bytes.
pub open spec fn user_info_of(
    name: Seq<u8>,
    email: Seq<u8>,
    timestamp: Seq<u8>,
    timezone: Seq<u8>,
) -> UserInfoView {
    UserInfoView {
        name: decode_utf8(name),
        email: decode_utf8(email),
        timestamp: decode_utf8(timestamp),
        timezone: decode_utf8(timezone),
    }
}

/// What decoding the value of an `author` or `committer` field gives: its
/// four parts as text, once they are found and if all of them are UTF-8.
pub open spec fn user_info_outcome(value: Seq<u8>) -> Result<UserInfoView, ErrorView> {
    match user_info_parts(value) {
        Err(e) => Err(e),
        Ok((name, email, timestamp, timezone)) => if valid_utf8(name) && valid_utf8(email)
            && valid_utf8(timestamp) && valid_utf8(timezone) {
            Ok(user_info_of(name, email, timestamp, timezone))
        } else {
            Err(ErrorView::NonUtf8Field)
        },
    }
}

/// The bytes of a person's entry with the given four parts.
pub open spec fn user_info_bytes(
    name: Seq<u8>,
    email: Seq<u8>,
    timestamp: Seq<u8>,
    timezone: Seq<u8>,
) -> Seq<u8> {
    name + seq![SPACE, OPEN_ANGLE] + email + seq![CLOSE_ANGLE, SPACE] + timestamp + seq![SPACE]
        + timezone
}

/// The four parts can be told from the bytes of their entry: the name holds
/// no `<`, the email no `>`, and the timestamp no space.
pub open spec fn user_parts_wf(
    name: Seq<u8>,
    email: Seq<u8>,
    timestamp: Seq<u8>,
    timezone: Seq<u8>,
) -> bool {
    &&& !name.contains(OPEN_ANGLE)
    &&& !email.contains(CLOSE_ANGLE)
    &&& !timestamp.contains(SPACE)
}

/// An entry written as `<name> <<email>> <timestamp> <timezone>` has these
/// four parts, provided that they are well-formed.
pub proof fn lemma_user_info_parts(
    name: Seq<u8>,
    email: Seq<u8>,
    timestamp: Seq<u8>,
    timezone: Seq<u8>,
)
    requires
        user_parts_wf(name, email, timestamp, timezone),
    ensures
        user_info_parts(user_info_bytes(name, email, timestamp, timezone)) == Ok::<
            (Seq<u8>, Seq<u8>, Seq<u8>, Seq<u8>),
            ErrorView,
        >((name, email, timestamp, timezone)),
{
    let value = user_info_bytes(name, email, timestamp, timezone);
    let name_part = name + seq![SPACE];
    let date = timestamp + seq![SPACE] + timezone;
    let date_part = seq![SPACE] + date;
    let rest = email + seq![CLOSE_ANGLE] + date_part;
    assert(split_first(value, OPEN_ANGLE) == Some((name_part, rest))) by {
        assert(value =~= name_part + seq![OPEN_ANGLE] + rest);
        if name_part.contains(OPEN_ANGLE) {
            let i = choose|i: int| 0 <= i < name_part.len() && name_part[i] == OPEN_ANGLE;
            assert(name[i] == OPEN_ANGLE);
            assert(name.contains(name[i]));
        }
        lemma_split_first_unique(name_part, OPEN_ANGLE, rest);
    }
    assert(split_first(rest, CLOSE_ANGLE) == Some((email, date_part))) by {
        lemma_split_first_unique(email, CLOSE_ANGLE, date_part);
    }
    assert(split_first(date_part.skip(1), SPACE) == Some((timestamp, timezone))) by {
        assert(date_part.skip(1) =~= date);
        lemma_split_first_unique(timestamp, SPACE, timezone);
    }
    assert(name_part.len() > 0 && name_part.last() == SPACE);
    assert(date_part.len() > 0 && date_part[0] == SPACE);
    assert(name_part.drop_last() =~= name);
}

/// An entry written as `<name> <<email>> <timestamp> <timezone>` decodes to
/// its four parts, provided that they are well-formed and UTF-8.
pub proof fn lemma_user_info_decodes(
    name: Seq<u8>,
    email: Seq<u8>,
    timestamp: Seq<u8>,
    timezone: Seq<u8>,
)
    requires
        user_parts_wf(name, email, timestamp, timezone),
        valid_utf8(name),
        valid_utf8(email),
        valid_utf8(timestamp),
        valid_utf8(timezone),
    ensures
        user_info_outcome(user_info_bytes(name, email, timestamp, timezone)) == Ok::<
            UserInfoView,
            ErrorView,
        >(user_info_of(name, email, timestamp, timezone)),
{
    lemma_user_info_parts(name, email, timestamp, timezone);
}

/// An entry whose four parts are found is made of these parts, written as
/// `<name> <<email>> <timestamp> <timezone>`, and they are well-formed.
pub proof fn lemma_user_info_shape(value: Seq<u8>)
    requires
        user_info_parts(value) is Ok,
    ensures
        ({
            let (name, email, timestamp, timezone) = user_info_parts(value)->Ok_0;
            &&& user_parts_wf(name, email, timestamp, timezone)
            &&& value == user_info_bytes(name, email, timestamp, timezone)
        }),
{
    let (name_part, rest) = split_first(value, OPEN_ANGLE).unwrap();
    let (email, date_part) = split_first(rest, CLOSE_ANGLE).unwrap();
    let date = date_part.skip(1);
    let (timestamp, timezone) = split_first(date, SPACE).unwrap();
    let name = name_part.drop_last();
    lemma_split_first_some(value, OPEN_ANGLE);
    lemma_split_first_some(rest, CLOSE_ANGLE);
    lemma_split_first_some(date, SPACE);
    assert(!name.contains(OPEN_ANGLE)) by {
        if name.contains(OPEN_ANGLE) {
            let i = choose|i: int| 0 <= i < name.len() && name[i] == OPEN_ANGLE;
            assert(name_part[i] == OPEN_ANGLE);
            assert(name_part.contains(name_part[i]));
        }
    }
    assert(value == user_info_bytes(name, email, timestamp, timezone)) by {
        assert(name_part =~= name + seq![SPACE]);
        assert(date_part =~= seq![SPACE] + date);
        assert(value =~= user_info_bytes(name, email, timestamp, timezone));
    }
}

/// Turns a byte slice into the text that it encodes in UTF-8.
pub fn byteslice_to_string(s: &[u8]) -> (r: Result<String, Error>)
    ensures
        valid_utf8(s@) ==> r is Ok && r->Ok_0@ == decode_utf8(s@),
        !valid_utf8(s@) ==> r is Err && r->Err_0@ == ErrorView::NonUtf8Field,
{
    match str_from_utf8(s) {
        Some(text) => {
            proof {
                encode_utf8_decode_utf8(text@);
            }
            Ok(text.to_owned())
        },
        None => Err(Error::NonUtf8Field),
    }
}

/// Decodes the value of an `author` or `committer` field.
pub fn parse_user_info(buf: &[u8]) -> (r: Result<UserInfo, Error>)
    ensures
        match r {
            Ok(info) => user_info_outcome(buf@) == Ok::<UserInfoView, ErrorView>(info@),
            Err(e) => user_info_outcome(buf@) == Err::<UserInfoView, ErrorView>(e@),
        },
{
    let (name_part, rest) = match cleave_out_at_value(buf, OPEN_ANGLE) {
        None => return Err(Error::MissingEmailOpenBracket),
        Some(parts) => parts,
    };
    if name_part.len() == 0 || name_part[name_part.len() - 1] != SPACE {
        return Err(Error::MissingSpaceBeforeEmail);
    }
    let name = slice_subrange(name_part, 0, name_part.len() - 1);

    let (email, date_part) = match cleave_out_at_value(rest, CLOSE_ANGLE) {
        None => return Err(Error::MissingEmailCloseBracket),
        Some(parts) => parts,
    };
    if date_part.len() == 0 || date_part[0] != SPACE {
        return Err(Error::MissingSpaceAfterEmail);
    }
    let date = slice_subrange(date_part, 1, date_part.len());

    let (timestamp, timezone) = match cleave_out_at_value(date, SPACE) {
        None => return Err(Error::MalformedDateField),
        Some(parts) => parts,
    };

    let name = match byteslice_to_string(name) {
        Ok(text) => text,
        Err(e) => return Err(e),
    };
    let email = match byteslice_to_string(email) {
        Ok(text) => text,
        Err(e) => return Err(e),
    };
    let timestamp = match byteslice_to_string(timestamp) {
        Ok(text) => text,
        Err(e) => return Err(e),
    };
    let timezone = match byteslice_to_string(timezone) {
        Ok(text) => text,
        Err(e) => return Err(e),
    };
    Ok(UserInfo { name, email, timestamp, timezone })
}

} // verus!
