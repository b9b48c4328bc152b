//! DNS names as text
//!
//! The textual form is that of a zone file, for one name and without quoted
//! strings: labels separated by dots, `\DDD` for the byte with the decimal
//! value `DDD`, and `\c` for any other byte `c` taken as it is.

use crate::dnsname::lower_label;
use crate::dnsname::MAX_LABS;
use crate::dnsname::MAX_LLEN;
use crate::dnsname::scratch::scratch_refusal;
use crate::dnsname::wire_len;
use crate::error::Error;
use vstd::prelude::*;

verus! {

/// An ASCII decimal digit.
pub open spec fn is_digit(byte: u8) -> bool {
    0x30 <= byte <= 0x39
}

/// One of the characters that are special in a zone file and end a name:
/// tab, newline, carriage return, space, the parentheses and the semicolon.
pub open spec fn is_terminator(byte: u8) -> bool {
    byte == 0x09 || byte == 0x0A || byte == 0x0D || byte == 0x20 || byte == 0x28 || byte == 0x29
        || byte == 0x3B
}

/// The byte that the three characters after a backslash stand for, the
/// first of which is a digit. Where they are not all digits, or their value
/// is no byte, the error carries the value of the digits that lead.
pub open spec fn escape_byte(a: u8, b: u8, c: u8) -> Result<u8, Error> {
    let value = (a - 0x30) * 100 + (b - 0x30) * 10 + (c - 0x30);
    if !is_digit(b) {
        Err(Error::EscapeBad((a - 0x30) as u16))
    } else if !is_digit(c) {
        Err(Error::EscapeBad(((a - 0x30) * 10 + (b - 0x30)) as u16))
    } else if value > 255 {
        Err(Error::EscapeBad(value as u16))
    } else {
        Ok(value as u8)
    }
}

/// The rest of a label of which `label` has been read, the text standing at
/// `pos`: the whole label, the position behind it, and whether there is a
/// label at all.
///
/// A dot ends the label and is passed over. A terminator or the end of the
/// text ends it too, and is not passed over; nothing read up to there is no
/// label. A label takes no more than 63 bytes.
pub open spec fn text_label(text: Seq<u8>, pos: int, label: Seq<u8>) -> Result<
    (Seq<u8>, int, bool),
    Error,
>
    decreases text.len() - pos,
{
    if !(0 <= pos < text.len()) {
        Ok((label, pos, label.len() > 0))
    } else if text[pos] == 0x5C {
        if pos + 1 >= text.len() {
            Err(Error::NameTruncated)
        } else if is_digit(text[pos + 1]) {
            if pos + 4 > text.len() {
                Err(Error::NameTruncated)
            } else {
                match escape_byte(text[pos + 1], text[pos + 2], text[pos + 3]) {
                    Err(e) => Err(e),
                    Ok(byte) => if label.len() >= MAX_LLEN {
                        Err(Error::LabelLength)
                    } else {
                        text_label(text, pos + 4, label.push(byte))
                    },
                }
            }
        } else if label.len() >= MAX_LLEN {
            Err(Error::LabelLength)
        } else {
            text_label(text, pos + 2, label.push(text[pos + 1]))
        }
    } else if text[pos] == 0x22 {
        Err(Error::NameQuotes)
    } else if is_terminator(text[pos]) {
        Ok((label, pos, label.len() > 0))
    } else if text[pos] == 0x2E {
        Ok((label, pos + 1, true))
    } else if label.len() >= MAX_LLEN {
        Err(Error::LabelLength)
    } else {
        text_label(text, pos + 1, label.push(text[pos]))
    }
}

/// A byte that is written as it is: a letter, a digit, `*`, `-` or `_`.
pub open spec fn is_plain(byte: u8) -> bool {
    byte == 0x2A || byte == 0x2D || byte == 0x5F || is_digit(byte) || 0x41 <= byte <= 0x5A || 0x61
        <= byte <= 0x7A
}

/// A byte in text: as it is where it is plain; behind a backslash where it
/// is another printable character; and else as a backslash and the three
/// decimal digits of its value.
pub open spec fn byte_text(byte: u8) -> Seq<u8> {
    if is_plain(byte) {
        seq![byte]
    } else if 0x21 <= byte <= 0x7E {
        seq![0x5Cu8, byte]
    } else {
        seq![
            0x5Cu8,
            (0x30 + byte / 100) as u8,
            (0x30 + (byte / 10) % 10) as u8,
            (0x30 + byte % 10) as u8,
        ]
    }
}

/// A label in text: its bytes in text, one after the other.
pub open spec fn label_text(label: Seq<u8>) -> Seq<u8>
    decreases label.len(),
{
    if label.len() == 0 {
        Seq::empty()
    } else {
        label_text(label.drop_last()) + byte_text(label.last())
    }
}

/// What follows label `lab` of a name with `labs` labels in text: a dot
/// behind the first label, and behind every label that has another one
/// between it and the root.
pub open spec fn dot_text(lab: int, labs: int) -> Seq<u8> {
    if lab == 0 || lab + 2 < labs {
        seq![0x2Eu8]
    } else {
        Seq::empty()
    }
}

/// The first `upto` labels of a name in text.
pub open spec fn labels_text(labels: Seq<Seq<u8>>, upto: int) -> Seq<u8>
    decreases upto,
{
    if upto <= 0 {
        Seq::empty()
    } else {
        labels_text(labels, upto - 1) + label_text(labels[upto - 1]) + dot_text(
            upto - 1,
            labels.len() as int,
        )
    }
}

/// A name in text: its labels separated by dots. The root is a dot; the
/// name of one label before the root ends with a dot, and no other does.
pub open spec fn name_text(labels: Seq<Seq<u8>>) -> Seq<u8> {
    labels_text(labels, labels.len() as int)
}

/// No byte of the text is outside ASCII.
pub open spec fn is_ascii_text(text: Seq<u8>) -> bool {
    forall|i: int| 0 <= i < text.len() ==> (#[trigger] text[i]) < 0x80
}

/// Append the text of a label to `out`.
pub fn write_text(out: &mut Vec<u8>, bytes: &[u8])
    ensures
        final(out)@ == old(out)@ + label_text(bytes@),
        is_ascii_text(old(out)@) ==> is_ascii_text(final(out)@),
{
    let mut i: usize = 0;
    assert(bytes@.take(0) =~= Seq::<u8>::empty());
    assert(out@ =~= old(out)@ + label_text(bytes@.take(0)));
    while i < bytes.len()
        invariant
            i <= bytes@.len(),
            out@ == old(out)@ + label_text(bytes@.take(i as int)),
            is_ascii_text(old(out)@) ==> is_ascii_text(out@),
        decreases bytes@.len() - i,
    {
        let byte = bytes[i];
        let ghost before = out@;
        if byte == 0x2A || byte == 0x2D || byte == 0x5F || (0x30 <= byte && byte <= 0x39) || (0x41
            <= byte && byte <= 0x5A) || (0x61 <= byte && byte <= 0x7A) {
            out.push(byte);
        } else if 0x21 <= byte && byte <= 0x7E {
            out.push(0x5C);
            out.push(byte);
        } else {
            // RFC 1035 peculiar decimal escapes
            out.push(0x5C);
            out.push(0x30 + byte / 100);
            out.push(0x30 + (byte / 10) % 10);
            out.push(0x30 + byte % 10);
        }
        proof {
            assert(out@ =~= before + byte_text(byte));
            assert(bytes@.take(i + 1).drop_last() =~= bytes@.take(i as int));
            assert(out@ =~= old(out)@ + label_text(bytes@.take(i + 1)));
        }
        i += 1;
    }
    assert(bytes@.take(bytes@.len() as int) =~= bytes@);
}

/// One of the labels is empty.
pub open spec fn has_empty(labels: Seq<Seq<u8>>) -> bool {
    exists|i: int| 0 <= i < labels.len() && (#[trigger] labels[i]).len() == 0
}

/// The name that the labels read from a text make: a single empty label is
/// the root; otherwise no label may be empty, and the root label is added.
pub open spec fn text_finish(labels: Seq<Seq<u8>>) -> Result<Seq<Seq<u8>>, Error> {
    if labels.len() == 0 || (labels.len() > 1 && has_empty(labels)) {
        Err(Error::NameSyntax)
    } else if has_empty(labels) {
        Ok(labels)
    } else {
        match scratch_refusal(labels.len() as int, wire_len(labels) as int, 0, 0) {
            Some(e) => Err(e),
            None => Ok(labels.push(Seq::empty())),
        }
    }
}

/// The name of which `labels` have been read, the text standing at `pos`:
/// its labels in lower case and the position behind it.
pub open spec fn text_name(text: Seq<u8>, pos: int, labels: Seq<Seq<u8>>) -> Result<
    (Seq<Seq<u8>>, int),
    Error,
>
    decreases MAX_LABS - labels.len(),
{
    match text_label(text, pos, Seq::empty()) {
        Err(e) => Err(e),
        Ok((label, next, more)) => if more {
            match scratch_refusal(
                labels.len() as int,
                wire_len(labels) as int,
                label.len() as int,
                label.len() as int,
            ) {
                Some(e) => Err(e),
                None => text_name(text, next, labels.push(lower_label(label))),
            }
        } else {
            match text_finish(labels) {
                Err(e) => Err(e),
                Ok(name) => Ok((name, next)),
            }
        },
    }
}

/// What reading a name from the start of `text` comes to.
pub open spec fn parse_text(text: Seq<u8>) -> Result<(Seq<Seq<u8>>, int), Error> {
    text_name(text, 0, Seq::empty())
}

} // verus!
