//! The event-stream wire format: one posted message becomes one frame, with
//! one `data:` field for each line and an empty line at the end.

use crate::scan::{CR, LF};
use crate::text::{
    ascii, find, first_from, lemma_first_from_is_first, lemma_first_from_unique, occurs_at,
    push_bytes, push_text,
};
use vstd::prelude::*;

verus! {

/// The pattern that ends a line.
pub open spec fn newline() -> Seq<u8> {
    seq![LF]
}

/// A line without the carriage return that stood before its line feed.
pub open spec fn without_cr(line: Seq<u8>) -> Seq<u8> {
    if line.len() > 0 && line.last() == CR {
        line.drop_last()
    } else {
        line
    }
}

/// The lines of a text. A line ends at a line feed, or at a carriage return
/// and the line feed behind it; the ending is no part of the line. The last
/// line needs no ending, and a text that ends with one has no empty line
/// after it.
pub open spec fn lines(text: Seq<u8>) -> Seq<Seq<u8>>
    decreases text.len(),
{
    if text.len() == 0 {
        Seq::empty()
    } else {
        match first_from(text, newline(), 0) {
            None => seq![text],
            Some(i) => {
                proof {
                    lemma_first_from_is_first(text, newline(), 0);
                }
                seq![without_cr(text.take(i))] + lines(text.skip(i + 1))
            },
        }
    }
}

/// One line as a field of a frame.
pub open spec fn data_field(line: Seq<u8>) -> Seq<u8> {
    ascii("data: "@) + line + newline()
}

/// The fields of the given lines, one after the other.
pub open spec fn data_fields(lines: Seq<Seq<u8>>) -> Seq<u8>
    decreases lines.len(),
{
    if lines.len() == 0 {
        Seq::empty()
    } else {
        data_fields(lines.drop_last()) + data_field(lines.last())
    }
}

/// The frame of a message: a field for each of its lines, then an empty line.
pub open spec fn frame_of(text: Seq<u8>) -> Seq<u8> {
    data_fields(lines(text)) + newline()
}

/// The frame sent to an idle subscriber.
pub open spec fn ping() -> Seq<u8> {
    ascii("event: ping\ndata: ping\n\n"@)
}

/// The text that a lossy UTF-8 decoding of `bytes` gives, in UTF-8 again.
pub uninterp spec fn lossy_utf8(bytes: Seq<u8>) -> Seq<u8>;

/// `String::from_utf8_lossy`: decodes the bytes as UTF-8 and puts U+FFFD in
/// place of each malformed sequence. The contract only names the outcome,
/// which is a function of the bytes alone; nothing more is claimed of it.
#[verifier::external_body]
fn decode_lossy(bytes: &[u8]) -> (text: Vec<u8>)
    ensures
        text@ == lossy_utf8(bytes@),
{
    String::from_utf8_lossy(bytes).into_owned().into_bytes()
}

/// No line of a text holds a line feed.
pub proof fn lemma_lines_hold_no_newline(text: Seq<u8>, k: int, j: int)
    requires
        0 <= k < lines(text).len(),
        0 <= j < lines(text)[k].len(),
    ensures
        lines(text)[k][j] != LF,
    decreases text.len(),
{
    lemma_first_from_is_first(text, newline(), 0);
    match first_from(text, newline(), 0) {
        None => {
            assert(lines(text)[k] == text);
            if text[j] == LF {
                assert(text.subrange(j, j + 1) == newline());
                assert(occurs_at(text, newline(), j));
            }
        },
        Some(i) => {
            let head = text.take(i);
            if k == 0 {
                assert(lines(text)[0] == without_cr(head));
                assert(without_cr(head)[j] == text[j]);
                if text[j] == LF {
                    assert(text.subrange(j, j + 1) == newline());
                    assert(occurs_at(text, newline(), j));
                }
            } else {
                assert(lines(text)[k] == lines(text.skip(i + 1))[k - 1]);
                lemma_lines_hold_no_newline(text.skip(i + 1), k - 1, j);
            }
        },
    }
}

/// No line among `ls` holds a line feed.
pub open spec fn free_of_newlines(ls: Seq<Seq<u8>>) -> bool {
    forall|k: int, j: int| 0 <= k < ls.len() && 0 <= j < ls[k].len() ==> #[trigger] ls[k][j] != LF
}

/// In the fields of lines that hold no line feed, a line feed ends each
/// field and stands nowhere else: none stands first, one stands last, and no
/// two stand side by side.
pub proof fn lemma_fields_shape(ls: Seq<Seq<u8>>)
    requires
        free_of_newlines(ls),
    ensures
        ls.len() > 0 ==> data_fields(ls).len() > 0 && data_fields(ls)[0] != LF && data_fields(
            ls,
        ).last() == LF,
        ls.len() == 0 ==> data_fields(ls).len() == 0,
        forall|i: int|
            0 <= i && i + 1 < data_fields(ls).len() && data_fields(ls)[i] == LF
                ==> #[trigger] data_fields(ls)[i + 1] != LF,
    decreases ls.len(),
{
    reveal_strlit("data: ");
    if ls.len() > 0 {
        let before = data_fields(ls.drop_last());
        let line = ls.last();
        let field = data_field(line);
        let all = data_fields(ls);
        assert(free_of_newlines(ls.drop_last())) by {
            assert forall|k: int, j: int|
                0 <= k < ls.drop_last().len() && 0 <= j < ls.drop_last()[k].len()
                implies #[trigger] ls.drop_last()[k][j] != LF by {
                assert(ls.drop_last()[k] == ls[k]);
                assert(ls[k][j] != LF);
            }
        }
        lemma_fields_shape(ls.drop_last());
        assert(all == before + field);
        assert(field.len() == 6 + line.len() + 1);
        assert(forall|j: int| 0 <= j < 6 ==> field[j] == ascii("data: "@)[j]);
        assert(forall|j: int| 6 <= j < 6 + line.len() ==> field[j] == line[j - 6]);
        assert forall|j: int| 0 <= j < line.len() implies #[trigger] line[j] != LF by {
            assert(ls[ls.len() - 1][j] != LF);
        }
        assert(forall|j: int| 0 <= j < field.len() - 1 ==> field[j] != LF);
        assert(field.last() == LF);
        assert forall|i: int|
            0 <= i && i + 1 < all.len() && all[i] == LF implies #[trigger] all[i + 1] != LF by {
            if i + 1 < before.len() {
                assert(all[i] == before[i]);
                assert(all[i + 1] == before[i + 1]);
            } else if i + 1 == before.len() {
                assert(all[i + 1] == field[0]);
            } else {
                assert(all[i] == field[i - before.len()]);
            }
        }
        if ls.len() > 1 {
            assert(all[0] == before[0]);
        } else {
            assert(all[0] == field[0]);
        }
    }
}

/// A frame ends with a line feed, and it holds an empty line, two line feeds
/// side by side, at its very end only. Where the message has a line, the
/// frame does end with that empty line.
pub proof fn lemma_frame_ends_with_its_only_empty_line(text: Seq<u8>)
    ensures
        frame_of(text).len() > 0,
        frame_of(text).last() == LF,
        lines(text).len() > 0 ==> {
            &&& frame_of(text).len() >= 2
            &&& frame_of(text)[frame_of(text).len() - 2] == LF
        },
        forall|i: int|
            {
                &&& 0 <= i
                &&& i + 1 < frame_of(text).len()
                &&& frame_of(text)[i] == LF
                &&& #[trigger] frame_of(text)[i + 1] == LF
            } ==> i + 2 == frame_of(text).len(),
{
    let ls = lines(text);
    assert(free_of_newlines(ls)) by {
        assert forall|k: int, j: int|
            0 <= k < ls.len() && 0 <= j < ls[k].len() implies #[trigger] ls[k][j] != LF by {
            lemma_lines_hold_no_newline(text, k, j);
        }
    }
    lemma_fields_shape(ls);
    let fields = data_fields(ls);
    let frame = frame_of(text);
    assert(frame == fields + newline());
    assert(frame.len() == fields.len() + 1);
    assert(frame.last() == LF);
    if ls.len() > 0 {
        assert(frame[frame.len() - 2] == fields.last());
    }
    assert forall|i: int|
        0 <= i && i + 1 < frame.len() && frame[i] == LF && #[trigger] frame[i + 1] == LF implies i
        + 2 == frame.len() by {
        if i + 1 < fields.len() {
            assert(frame[i] == fields[i]);
            assert(frame[i + 1] == fields[i + 1]);
        }
    }
}

/// What a reader of the stream finds between the line feeds: each piece
/// that a line feed ends, and what is left behind the last one.
pub open spec fn pieces(bytes: Seq<u8>) -> Seq<Seq<u8>>
    decreases bytes.len(),
{
    if bytes.len() == 0 {
        Seq::empty()
    } else {
        match first_from(bytes, newline(), 0) {
            None => seq![bytes],
            Some(i) => {
                proof {
                    lemma_first_from_is_first(bytes, newline(), 0);
                }
                seq![bytes.take(i)] + pieces(bytes.skip(i + 1))
            },
        }
    }
}

/// What a reader finds in the frame of `n` lines: `data: ` and the line, for
/// each line in turn, and then the empty piece that ends the frame.
pub open spec fn fields_read(ls: Seq<Seq<u8>>) -> Seq<Seq<u8>> {
    Seq::new(
        ls.len() + 1,
        |k: int|
            if k < ls.len() {
                ascii("data: "@) + ls[k]
            } else {
                Seq::empty()
            },
    )
}

/// The fields of lines: the field of the first, then the fields of the others.
pub proof fn lemma_fields_first(ls: Seq<Seq<u8>>)
    requires
        ls.len() > 0,
    ensures
        data_fields(ls) == data_field(ls[0]) + data_fields(ls.skip(1)),
    decreases ls.len(),
{
    if ls.len() == 1 {
        assert(data_fields(ls.drop_last()) == Seq::<u8>::empty());
        assert(data_fields(ls.skip(1)) == Seq::<u8>::empty());
        assert(data_fields(ls) == data_field(ls[0]));
    } else {
        lemma_fields_first(ls.drop_last());
        assert(ls.drop_last().skip(1) == ls.skip(1).drop_last());
        assert(ls.skip(1).last() == ls.last());
        assert(ls.drop_last()[0] == ls[0]);
    }
}

/// The fields of lines without line feeds, and the empty line behind them,
/// read back as those lines, one field for each, and the empty piece.
pub proof fn lemma_fields_read_back(ls: Seq<Seq<u8>>)
    requires
        free_of_newlines(ls),
    ensures
        pieces(data_fields(ls) + newline()) == fields_read(ls),
    decreases ls.len(),
{
    reveal_strlit("data: ");
    let whole = data_fields(ls) + newline();
    if ls.len() == 0 {
        assert(whole == newline());
        assert(whole.subrange(0, 1) == newline());
        lemma_first_from_unique(whole, newline(), 0, 0);
        assert(whole.take(0) == Seq::<u8>::empty());
        assert(whole.skip(1).len() == 0);
        assert(pieces(whole) == seq![Seq::<u8>::empty()] + pieces(whole.skip(1)));
        assert(pieces(whole) == fields_read(ls));
    } else {
        let rest = ls.skip(1);
        let named = ascii("data: "@) + ls[0];
        let after = data_fields(rest) + newline();
        lemma_fields_first(ls);
        assert(whole == named + newline() + after);
        let at = named.len() as int;
        assert(whole.subrange(at, at + 1) == newline());
        assert forall|j: int| 0 <= j < at implies !occurs_at(whole, newline(), j) by {
            if occurs_at(whole, newline(), j) {
                assert(whole.subrange(j, j + 1)[0] == LF);
                assert(whole[j] == named[j]);
                if j >= 6 {
                    assert(named[j] == ls[0][j - 6]);
                }
            }
        }
        lemma_first_from_unique(whole, newline(), 0, at);
        assert(whole.take(at) == named);
        assert(whole.skip(at + 1) == after);
        assert(free_of_newlines(rest)) by {
            assert forall|k: int, j: int|
                0 <= k < rest.len() && 0 <= j < rest[k].len() implies #[trigger] rest[k][j]
                != LF by {
                assert(rest[k] == ls[k + 1]);
                assert(ls[k + 1][j] != LF);
            }
        }
        lemma_fields_read_back(rest);
        assert(pieces(whole) == seq![named] + fields_read(rest));
        assert(seq![named] + fields_read(rest) == fields_read(ls)) by {
            assert forall|k: int| 0 <= k < ls.len() + 1 implies (seq![named] + fields_read(rest))[k]
                == fields_read(ls)[k] by {
                if 1 <= k && k < ls.len() {
                    assert(rest[k - 1] == ls[k]);
                }
            }
        }
    }
}

/// A message goes round: whoever reads its frame line by line finds one
/// `data:` field for each line of the message, in their order and with the
/// line behind `data: ` as it was, and then the one empty line that ends
/// the frame.
pub proof fn lemma_frame_reads_back_line_by_line(text: Seq<u8>)
    ensures
        pieces(frame_of(text)) == fields_read(lines(text)),
        pieces(frame_of(text)).len() == lines(text).len() + 1,
{
    let ls = lines(text);
    assert(free_of_newlines(ls)) by {
        assert forall|k: int, j: int|
            0 <= k < ls.len() && 0 <= j < ls[k].len() implies #[trigger] ls[k][j] != LF by {
            lemma_lines_hold_no_newline(text, k, j);
        }
    }
    lemma_fields_read_back(ls);
}

/// The frame of a message, field by field.
pub fn frame_message(text: &[u8]) -> (frame: Vec<u8>)
    ensures
        frame@ == frame_of(text@),
{
    let mut frame: Vec<u8> = Vec::new();
    let mut rest: &[u8] = text;
    let ghost mut done: Seq<Seq<u8>> = Seq::empty();
    proof {
        reveal_strlit("data: ");
        reveal_strlit("\n");
    }
    assert(ascii("\n"@) == newline());
    while rest.len() > 0
        invariant
            lines(text@) == done + lines(rest@),
            frame@ == data_fields(done),
            "data: ".is_ascii(),
            "\n".is_ascii(),
            ascii("\n"@) == newline(),
        decreases rest@.len(),
    {
        proof {
            lemma_first_from_is_first(rest@, newline(), 0);
        }
        let stop: [u8; 1] = [LF];
        assert(stop@ == newline());
        let end = find(rest, stop.as_slice(), 0);
        let (piece, after): (&[u8], usize) = match end {
            Some(i) => (vstd::slice::slice_subrange(rest, 0, i), i + 1),
            None => (rest, rest.len()),
        };
        let line: &[u8] = if end.is_some() && piece.len() > 0 && piece[piece.len() - 1] == CR {
            vstd::slice::slice_subrange(piece, 0, piece.len() - 1)
        } else {
            piece
        };
        let ghost tail = rest@.skip(after as int);
        proof {
            assert(lines(rest@) == seq![line@] + lines(tail)) by {
                if end is None {
                    assert(tail.len() == 0);
                    assert(seq![rest@] + lines(tail) == seq![rest@]);
                } else {
                    assert(piece@ == rest@.take(end->0 as int));
                    assert(line@ == without_cr(piece@));
                }
            }
            assert(done + lines(rest@) == done.push(line@) + lines(tail));
            assert(done.push(line@).drop_last() == done);
        }
        push_text(&mut frame, "data: ");
        push_bytes(&mut frame, line);
        push_text(&mut frame, "\n");
        proof {
            done = done.push(line@);
            assert(frame@ == data_fields(done)) by {
                assert(frame@ == data_fields(done.drop_last()) + (ascii("data: "@) + line@
                    + newline()));
            }
        }
        rest = vstd::slice::slice_subrange(rest, after, rest.len());
    }
    assert(lines(rest@).len() == 0);
    assert(done + lines(rest@) == done);
    push_text(&mut frame, "\n");
    frame
}

/// The frame of a posted body: the body is decoded as text, malformed
/// sequences replaced, and the text is framed.
pub fn frame_body(body: &[u8]) -> (frame: Vec<u8>)
    ensures
        frame@ == frame_of(lossy_utf8(body@)),
{
    let text = decode_lossy(body);
    frame_message(text.as_slice())
}

/// The keep-alive frame for an idle subscriber.
pub fn ping_frame() -> (frame: Vec<u8>)
    ensures
        frame@ == ping(),
{
    let mut frame: Vec<u8> = Vec::new();
    proof {
        reveal_strlit("event: ping\ndata: ping\n\n");
    }
    push_text(&mut frame, "event: ping\ndata: ping\n\n");
    frame
}

} // verus!
