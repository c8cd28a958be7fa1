//! The wire format of refresh requests.
//!
//! A request is one line ended by `\r\n`: `REFRESH <name>` or
//! `BUTTON <n> <name>`, with the keyword in any case and words separated by
//! any whitespace. A [`Frame`] is one decoded line (or the mark that it did
//! not decode); [`Frames`] are the lines of a buffer.

use crate::block::BlockRunMode;
use crate::split::{crlf_at, lemma_records_first_crlf, records, SplitAtRN};
use crate::statusbar::BlockRefreshMessage;
use crate::text::{
    all_ws, ascii_upper_word, decimal, decimal_string, flush, is_digit, is_ws, lemma_decimal_digits,
    lemma_parse_decimal, lemma_words_inner_ws, lemma_words_leading_ws, lemma_words_trailing_ws,
    lemma_words_word, lemma_words_ws_run, no_ws, parse_byte, parse_u8, split_words, upper_equals,
    upper_is, words, words_from,
};
use vstd::prelude::*;
use vstd::string::{StrSliceExecFns, StringExecFns};
use vstd::utf8::{
    char_is_scalar, char_u32_cast, decode_utf8, encode_scalar, encode_utf8, encode_utf8_decode_utf8, encode_utf8_valid_utf8,
    is_ascii_chars, valid_utf8,
};

verus! {

/// The keyword of a plain refresh.
pub open spec fn refresh_keyword() -> Seq<char> {
    seq!['R', 'E', 'F', 'R', 'E', 'S', 'H']
}

/// The keyword of a refresh as if clicked.
pub open spec fn button_keyword() -> Seq<char> {
    seq!['B', 'U', 'T', 'T', 'O', 'N']
}

/// The request that the words `w` of a line stand for, if any.
pub open spec fn decode_words(w: Seq<Seq<char>>) -> Option<(Seq<char>, BlockRunMode)> {
    if w.len() == 2 && upper_is(w[0], refresh_keyword()) {
        Some((w[1], BlockRunMode::Normal))
    } else if w.len() == 3 && upper_is(w[0], button_keyword()) && parse_u8(w[1]) is Some {
        Some((w[2], BlockRunMode::Button(parse_u8(w[1])->0)))
    } else {
        None
    }
}

/// The request that the text `t` stands for, if any.
pub open spec fn decode_text(t: Seq<char>) -> Option<(Seq<char>, BlockRunMode)> {
    decode_words(words(t))
}

/// The request that the bytes `b` stand for: none unless they are UTF-8.
pub open spec fn decode_record(b: Seq<u8>) -> Option<(Seq<char>, BlockRunMode)> {
    if valid_utf8(b) {
        decode_text(decode_utf8(b))
    } else {
        None
    }
}

/// The line that encodes the request `m`, without its `\r\n`.
pub open spec fn request_line(m: (Seq<char>, BlockRunMode)) -> Seq<char> {
    match m.1 {
        BlockRunMode::Normal => refresh_keyword() + seq![' '] + m.0,
        BlockRunMode::Button(b) => button_keyword() + seq![' '] + decimal(b as nat) + seq![' ']
            + m.0,
    }
}

/// The line that encodes the request `m`, with its `\r\n`.
pub open spec fn request_text(m: (Seq<char>, BlockRunMode)) -> Seq<char> {
    request_line(m) + seq!['\r', '\n']
}

/// Whether `m` can travel on the wire: its name is one non-empty word.
pub open spec fn valid_request(m: (Seq<char>, BlockRunMode)) -> bool {
    m.0.len() > 0 && no_ws(m.0)
}

/// The bytes of a frame: its line in UTF-8, or nothing for an error frame.
pub open spec fn encode_frame(f: Option<(Seq<char>, BlockRunMode)>) -> Seq<u8> {
    match f {
        Some(m) => encode_utf8(request_text(m)),
        None => seq![],
    }
}

/// The bytes of the frames `fs`, one after another.
pub open spec fn encode_all(fs: Seq<Option<(Seq<char>, BlockRunMode)>>) -> Seq<u8>
    decreases fs.len(),
{
    if fs.len() == 0 {
        seq![]
    } else {
        encode_all(fs.drop_last()) + encode_frame(fs.last())
    }
}

/// The frames that the bytes `s` decode to: one per record.
pub open spec fn decode_all(s: Seq<u8>) -> Seq<Option<(Seq<char>, BlockRunMode)>> {
    records(s).map_values(|b: Seq<u8>| decode_record(b))
}

/// The requests among the frames `fs`, in order.
pub open spec fn requests_of(fs: Seq<Option<(Seq<char>, BlockRunMode)>>) -> Seq<(Seq<char>, BlockRunMode)>
    decreases fs.len(),
{
    if fs.len() == 0 {
        seq![]
    } else {
        match fs.last() {
            Some(m) => requests_of(fs.drop_last()).push(m),
            None => requests_of(fs.drop_last()),
        }
    }
}

/// Relies on `std::str::from_utf8`: the bytes read as text when, and only
/// when, they are valid UTF-8.
#[verifier::external_body]
fn utf8_str(b: &[u8]) -> (r: Option<&str>)
    ensures
        r is Some <==> valid_utf8(b@),
        r matches Some(s) ==> s@ == decode_utf8(b@),
{
    std::str::from_utf8(b).ok()
}

/// One decoded line: a request, or the mark that the line did not decode.
#[derive(Debug, PartialEq, Clone)]
pub enum Frame {
    /// A decoded request.
    Message(BlockRefreshMessage),
    /// The line was not a request.
    Error,
}

impl View for Frame {
    type V = Option<(Seq<char>, BlockRunMode)>;

    open spec fn view(&self) -> Option<(Seq<char>, BlockRunMode)> {
        match self {
            Frame::Message(m) => Some(m@),
            Frame::Error => None,
        }
    }
}

impl Frame {
    /// Decodes one line (without its `\r\n`, though a trailing one does no harm).
    pub fn decode(data: &[u8]) -> (r: Frame)
        ensures
            r@ == decode_record(data@),
    {
        match utf8_str(data) {
            Some(text) => Frame::decode_str(text),
            None => Frame::Error,
        }
    }

    /// Decodes one line of text.
    pub fn decode_str(text: &str) -> (r: Frame)
        ensures
            r@ == decode_text(text@),
    {
        proof {
            reveal_strlit("REFRESH");
            reveal_strlit("BUTTON");
        }
        assert("REFRESH"@ =~= refresh_keyword());
        assert("BUTTON"@ =~= button_keyword());
        let w = split_words(text);
        if w.len() == 2 {
            if upper_equals(w[0], "REFRESH") {
                return Frame::Message(BlockRefreshMessage::new(w[1].to_owned(), BlockRunMode::Normal));
            }
        } else if w.len() == 3 {
            if upper_equals(w[0], "BUTTON") {
                if let Some(b) = parse_byte(w[1]) {
                    return Frame::Message(BlockRefreshMessage::new(w[2].to_owned(), BlockRunMode::Button(b)));
                }
            }
        }
        Frame::Error
    }

    /// The line of a request, as text.
    fn request_string(m: &BlockRefreshMessage) -> (r: String)
        ensures
            r@ == request_text(m@),
    {
        proof {
            reveal_strlit("REFRESH ");
            reveal_strlit("BUTTON ");
            reveal_strlit(" ");
            reveal_strlit("\r\n");
        }
        let mut s = String::new();
        match m.mode() {
            BlockRunMode::Normal => {
                s.append("REFRESH ");
            },
            BlockRunMode::Button(b) => {
                s.append("BUTTON ");
                let d = decimal_string(b as u64);
                s.append(d.as_str());
                s.append(" ");
            },
        }
        s.append(m.name().as_str());
        s.append("\r\n");
        assert(s@ =~= request_text(m@));
        s
    }

    /// Encodes the frame: its line in UTF-8, or no bytes for [`Frame::Error`].
    pub fn encode(&self) -> (r: Vec<u8>)
        ensures
            r@ == encode_frame(self@),
    {
        match self {
            Frame::Message(m) => {
                let s = Frame::request_string(m);
                s.as_str().as_bytes_vec()
            },
            Frame::Error => Vec::new(),
        }
    }
}


/// Encodes requests one after another, as the frames holding them would be.
pub fn encode_messages(ms: &Vec<BlockRefreshMessage>) -> (r: Vec<u8>)
    ensures
        r@ == encode_all(ms@.map_values(|m: BlockRefreshMessage| Some(m@))),
{
    let ghost fs = ms@.map_values(|m: BlockRefreshMessage| Some(m@));
    let mut out: Vec<u8> = Vec::new();
    let mut i: usize = 0;
    assert(fs.take(0) =~= Seq::<Option<(Seq<char>, BlockRunMode)>>::empty());
    while i < ms.len()
        invariant
            i <= ms@.len(),
            fs == ms@.map_values(|m: BlockRefreshMessage| Some(m@)),
            out@ == encode_all(fs.take(i as int)),
        decreases ms.len() - i,
    {
        let s = Frame::request_string(&ms[i]);
        let mut b = s.as_str().as_bytes_vec();
        out.append(&mut b);
        assert(fs.take(i + 1).drop_last() =~= fs.take(i as int));
        assert(fs.take(i + 1).last() == Some(ms@[i as int]@));
        i = i + 1;
    }
    assert(fs.take(i as int) =~= fs);
    out
}

/// The requests that a buffer holds, in order; lines that do not decode
/// are skipped.
pub fn requests_in(data: &[u8]) -> (r: Vec<BlockRefreshMessage>)
    ensures
        r@.map_values(|m: BlockRefreshMessage| m@) == requests_of(decode_all(data@)),
{
    Frames::decode(data).into_messages()
}

/// Requests that were encoded one after another are the requests that the
/// bytes hold, in the same order.
pub proof fn law_requests_arrive(ms: Seq<(Seq<char>, BlockRunMode)>)
    requires
        forall|i: int| 0 <= i < ms.len() ==> valid_request(#[trigger] ms[i]),
    ensures
        requests_of(decode_all(encode_all(ms.map_values(|m: (Seq<char>, BlockRunMode)| Some(m)))))
            == ms,
    decreases ms.len(),
{
    law_buffered(ms);
    lemma_requests_of_all(ms);
}

proof fn lemma_requests_of_all(ms: Seq<(Seq<char>, BlockRunMode)>)
    ensures
        requests_of(ms.map_values(|m: (Seq<char>, BlockRunMode)| Some(m))) == ms,
    decreases ms.len(),
{
    let fs = ms.map_values(|m: (Seq<char>, BlockRunMode)| Some(m));
    if ms.len() > 0 {
        lemma_requests_of_all(ms.drop_last());
        assert(fs.drop_last() =~= ms.drop_last().map_values(
            |m: (Seq<char>, BlockRunMode)| Some(m),
        ));
        assert(ms.drop_last().push(ms.last()) =~= ms);
    } else {
        assert(requests_of(fs) =~= ms);
    }
}

impl From<BlockRefreshMessage> for Frame {
    /// Wraps a request, ready to be encoded.
    fn from(msg: BlockRefreshMessage) -> (r: Frame) {
        Frame::Message(msg)
    }
}

impl vstd::std_specs::convert::FromSpecImpl<BlockRefreshMessage> for Frame {
    open spec fn obeys_from_spec() -> bool {
        true
    }

    open spec fn from_spec(msg: BlockRefreshMessage) -> Frame {
        Frame::Message(msg)
    }
}

impl<'a> From<&'a [u8]> for Frame {
    /// Decodes one line, as [`Frame::decode`] does.
    fn from(data: &'a [u8]) -> (r: Frame)
        ensures
            r@ == decode_record(data@),
    {
        Frame::decode(data)
    }
}

impl<'a> vstd::std_specs::convert::FromSpecImpl<&'a [u8]> for Frame {
    open spec fn obeys_from_spec() -> bool {
        false
    }

    closed spec fn from_spec(data: &'a [u8]) -> Frame {
        arbitrary()
    }
}

/// The frames of a buffer, in order.
#[derive(Debug, PartialEq, Clone)]
pub struct Frames {
    frames: Vec<Frame>,
}

impl View for Frames {
    type V = Seq<Option<(Seq<char>, BlockRunMode)>>;

    closed spec fn view(&self) -> Seq<Option<(Seq<char>, BlockRunMode)>> {
        self.frames@.map_values(|f: Frame| f@)
    }
}

impl Frames {
    /// Collects the given frames, in order.
    pub fn from_iter(frames: Vec<Frame>) -> (r: Frames)
        ensures
            r@ == frames@.map_values(|f: Frame| f@),
    {
        Frames { frames }
    }

    /// Frames holding the given requests, in order.
    pub fn from_messages(messages: Vec<BlockRefreshMessage>) -> (r: Frames)
        ensures
            r@ == messages@.map_values(|m: BlockRefreshMessage| Some(m@)),
    {
        let mut frames: Vec<Frame> = Vec::new();
        for m in it: messages
            invariant
                frames@.map_values(|f: Frame| f@) == it.seq().take(it.index() as int).map_values(
                    |m: BlockRefreshMessage| Some(m@),
                ),
        {
            let ghost k = it.index();
            let ghost before = frames@.map_values(|f: Frame| f@);
            assert(it.seq().take(k + 1) =~= it.seq().take(k).push(m));
            frames.push(Frame::Message(m));
            assert(frames@.map_values(|f: Frame| f@) =~= before.push(Some(m@)));
            assert(it.seq().take(k + 1).map_values(|m: BlockRefreshMessage| Some(m@))
                =~= it.seq().take(k).map_values(|m: BlockRefreshMessage| Some(m@)).push(Some(m@)));
        }
        Frames { frames }
    }

    /// Decodes every record of `data`; bytes after the last `\r\n` are dropped.
    pub fn decode(data: &[u8]) -> (r: Frames)
        ensures
            r@ == decode_all(data@),
    {
        let mut it = SplitAtRN::new(data);
        let mut frames: Vec<Frame> = Vec::new();
        assert(frames@.map_values(|f: Frame| f@) + decode_all(data@) =~= decode_all(data@));
        loop
            invariant
                decode_all(data@) == frames@.map_values(|f: Frame| f@) + records(it@).map_values(
                    |b: Seq<u8>| decode_record(b),
                ),
            ensures
                decode_all(data@) == frames@.map_values(|f: Frame| f@),
            decreases it@.len(),
        {
            let ghost rest = it@;
            match it.next() {
                Some(rec) => {
                    let ghost before = frames@.map_values(|f: Frame| f@);
                    frames.push(Frame::decode(rec));
                    assert(records(rest).map_values(|b: Seq<u8>| decode_record(b)) =~= seq![
                        decode_record(rec@),
                    ] + records(it@).map_values(|b: Seq<u8>| decode_record(b)));
                    assert(frames@.map_values(|f: Frame| f@) =~= before + seq![decode_record(rec@)]);
                },
                None => {
                    assert(frames@.map_values(|f: Frame| f@) + records(it@).map_values(
                        |b: Seq<u8>| decode_record(b),
                    ) =~= frames@.map_values(|f: Frame| f@));
                    break ;
                },
            }
        }
        Frames { frames }
    }

    /// Encodes the frames one after another.
    pub fn encode(&self) -> (r: Vec<u8>)
        ensures
            r@ == encode_all(self@),
    {
        let mut out: Vec<u8> = Vec::new();
        let mut i: usize = 0;
        assert(self@.take(0) =~= Seq::<Option<(Seq<char>, BlockRunMode)>>::empty());
        while i < self.frames.len()
            invariant
                i <= self.frames@.len(),
                self@ == self.frames@.map_values(|f: Frame| f@),
                out@ == encode_all(self@.take(i as int)),
            decreases self.frames.len() - i,
        {
            let mut b = self.frames[i].encode();
            out.append(&mut b);
            assert(self@.take(i + 1).drop_last() =~= self@.take(i as int));
            i = i + 1;
        }
        assert(self@.take(i as int) =~= self@);
        out
    }

    /// The frames, in order.
    pub fn frames(&self) -> (r: &Vec<Frame>)
        ensures
            r@.map_values(|f: Frame| f@) == self@,
    {
        &self.frames
    }

    /// The frames, in order.
    pub fn into_frames(self) -> (r: Vec<Frame>)
        ensures
            r@.map_values(|f: Frame| f@) == self@,
    {
        self.frames
    }

    /// The requests among the frames, in order; error frames are left out.
    pub fn into_messages(self) -> (r: Vec<BlockRefreshMessage>)
        ensures
            r@.map_values(|m: BlockRefreshMessage| m@) == requests_of(self@),
    {
        let ghost all = self@;
        let mut out: Vec<BlockRefreshMessage> = Vec::new();
        for f in it: self.frames
            invariant
                all == it.seq().map_values(|f: Frame| f@),
                out@.map_values(|m: BlockRefreshMessage| m@) == requests_of(
                    all.take(it.index() as int),
                ),
        {
            let ghost k = it.index();
            assert(all.take(k + 1).drop_last() =~= all.take(k));
            assert(all.take(k + 1).last() == f@);
            let ghost before = out@.map_values(|m: BlockRefreshMessage| m@);
            match f {
                Frame::Message(m) => {
                    out.push(m);
                    assert(out@.map_values(|m: BlockRefreshMessage| m@) =~= before.push(m@));
                },
                Frame::Error => {},
            }
        }
        assert(all.take(all.len() as int) =~= all);
        out
    }
}

impl<'a> From<&'a [u8]> for Frames {
    /// Decodes a buffer, as [`Frames::decode`] does.
    fn from(data: &'a [u8]) -> (r: Frames)
        ensures
            r@ == decode_all(data@),
    {
        Frames::decode(data)
    }
}

impl<'a> vstd::std_specs::convert::FromSpecImpl<&'a [u8]> for Frames {
    open spec fn obeys_from_spec() -> bool {
        false
    }

    closed spec fn from_spec(data: &'a [u8]) -> Frames {
        arbitrary()
    }
}


proof fn lemma_encode_concat(a: Seq<char>, b: Seq<char>)
    ensures
        encode_utf8(a + b) == encode_utf8(a) + encode_utf8(b),
    decreases a.len(),
{
    if a.len() == 0 {
        assert(a + b =~= b);
        assert(encode_utf8(a) + encode_utf8(b) =~= encode_utf8(b));
    } else {
        assert((a + b)[0] == a[0]);
        assert((a + b).drop_first() =~= a.drop_first() + b);
        lemma_encode_concat(a.drop_first(), b);
        assert(encode_scalar(a[0] as u32) + (encode_utf8(a.drop_first()) + encode_utf8(b))
            =~= (encode_scalar(a[0] as u32) + encode_utf8(a.drop_first())) + encode_utf8(b));
    }
}

proof fn lemma_scalar_bytes(v: u32)
    by (bit_vector)
    requires
        v <= 0x10FFFF,
    ensures
        v <= 0x7F ==> (v & 0x7F) as u8 == v as u8,
        (0xC0u8 | ((v >> 6) & 0x1F) as u8) >= 0x80u8,
        (0xE0u8 | ((v >> 12) & 0x0F) as u8) >= 0x80u8,
        (0xF0u8 | ((v >> 18) & 0x7) as u8) >= 0x80u8,
        (0x80u8 | (v & 0x3F) as u8) >= 0x80u8,
        (0x80u8 | ((v >> 6) & 0x3F) as u8) >= 0x80u8,
        (0x80u8 | ((v >> 12) & 0x3F) as u8) >= 0x80u8,
{
}

/// The bytes of text without a carriage return hold no byte 13.
proof fn lemma_encode_no_cr(t: Seq<char>)
    requires
        forall|i: int| 0 <= i < t.len() ==> t[i] != '\r',
    ensures
        forall|j: int| 0 <= j < encode_utf8(t).len() ==> encode_utf8(t)[j] != 13u8,
    decreases t.len(),
{
    if t.len() > 0 {
        let c = t[0];
        let v = c as u32;
        char_is_scalar(c);
        lemma_scalar_bytes(v);
        assert(c != '\r');
        char_u32_cast(c, v);
        char_u32_cast('\r', 13u32);
        let e = encode_scalar(v);
        assert forall|j: int| 0 <= j < e.len() implies e[j] != 13u8 by {
            if v <= 0x7F {
                assert(v != 13);
            }
        }
        assert forall|i: int| 0 <= i < t.drop_first().len() implies t.drop_first()[i] != '\r' by {
            assert(t.drop_first()[i] == t[i + 1]);
        }
        lemma_encode_no_cr(t.drop_first());
        assert forall|j: int| 0 <= j < encode_utf8(t).len() implies encode_utf8(t)[j] != 13u8 by {
            if j >= e.len() {
                assert(encode_utf8(t)[j] == encode_utf8(t.drop_first())[j - e.len()]);
            } else {
                assert(encode_utf8(t)[j] == e[j]);
            }
        }
    }
}

proof fn lemma_keywords()
    ensures
        upper_is(refresh_keyword(), refresh_keyword()),
        upper_is(button_keyword(), button_keyword()),
        !upper_is(refresh_keyword(), button_keyword()),
        no_ws(refresh_keyword()),
        no_ws(button_keyword()),
        refresh_keyword().len() > 0,
        button_keyword().len() > 0,
{
    assert(is_ascii_chars(refresh_keyword()));
    assert(is_ascii_chars(button_keyword()));
    assert(ascii_upper_word(refresh_keyword()) =~= refresh_keyword());
    assert(ascii_upper_word(button_keyword()) =~= button_keyword());
}

/// The words of a request's line, with nothing or `\r\n` after it.
proof fn lemma_request_words(m: (Seq<char>, BlockRunMode), tail: Seq<char>)
    requires
        valid_request(m),
        tail == Seq::<char>::empty() || tail == seq!['\r', '\n'],
    ensures
        words(request_line(m) + tail) == (match m.1 {
            BlockRunMode::Normal => seq![refresh_keyword(), m.0],
            BlockRunMode::Button(b) => seq![button_keyword(), decimal(b as nat), m.0],
        }),
{
    lemma_keywords();
    let sp = seq![' '];
    assert(all_ws(sp));
    assert(all_ws(tail));
    lemma_words_trailing_ws(request_line(m), tail);
    let name = m.0;
    match m.1 {
        BlockRunMode::Normal => {
            let kw = refresh_keyword();
            assert(request_line(m) =~= kw + (sp + name));
            lemma_words_word(kw, sp + name, seq![]);
            assert(seq![] + kw =~= kw);
            lemma_words_ws_run(sp, name, kw);
            assert(name =~= name + seq![]);
            lemma_words_word(name, seq![], seq![]);
            assert(seq![] + name =~= name);
            assert(words_from(seq![], name) == flush(name));
            assert(words(request_line(m)) =~= seq![kw, name]);
        },
        BlockRunMode::Button(b) => {
            let kw = button_keyword();
            let d = decimal(b as nat);
            lemma_decimal_digits(b as nat);
            assert(no_ws(d)) by {
                assert forall|i: int| 0 <= i < d.len() implies !is_ws(#[trigger] d[i]) by {
                    assert(is_digit(d[i]));
                }
            }
            assert(request_line(m) =~= kw + (sp + (d + (sp + name))));
            lemma_words_word(kw, sp + (d + (sp + name)), seq![]);
            assert(seq![] + kw =~= kw);
            lemma_words_ws_run(sp, d + (sp + name), kw);
            lemma_words_word(d, sp + name, seq![]);
            assert(seq![] + d =~= d);
            lemma_words_ws_run(sp, name, d);
            assert(name =~= name + seq![]);
            lemma_words_word(name, seq![], seq![]);
            assert(seq![] + name =~= name);
            assert(words(request_line(m)) =~= seq![kw, d, name]);
        },
    }
}

proof fn lemma_decode_request_line(m: (Seq<char>, BlockRunMode), tail: Seq<char>)
    requires
        valid_request(m),
        tail == Seq::<char>::empty() || tail == seq!['\r', '\n'],
    ensures
        decode_text(request_line(m) + tail) == Some(m),
{
    lemma_keywords();
    lemma_request_words(m, tail);
    if let BlockRunMode::Button(b) = m.1 {
        lemma_parse_decimal(b);
    }
}

/// Decoding the encoding of a request gives the request back.
pub proof fn law_round_trip(m: (Seq<char>, BlockRunMode))
    requires
        valid_request(m),
    ensures
        decode_record(encode_frame(Some(m))) == Some(m),
{
    encode_utf8_valid_utf8(request_text(m));
    encode_utf8_decode_utf8(request_text(m));
    lemma_decode_request_line(m, seq!['\r', '\n']);
}

proof fn lemma_encode_all_front(fs: Seq<Option<(Seq<char>, BlockRunMode)>>)
    requires
        fs.len() > 0,
    ensures
        encode_all(fs) == encode_frame(fs[0]) + encode_all(fs.drop_first()),
    decreases fs.len(),
{
    if fs.len() == 1 {
        assert(fs.drop_last() =~= Seq::<Option<(Seq<char>, BlockRunMode)>>::empty());
        assert(fs.drop_first() =~= Seq::<Option<(Seq<char>, BlockRunMode)>>::empty());
        assert(encode_all(fs.drop_last()) + encode_frame(fs.last()) =~= encode_frame(fs[0])
            + encode_all(fs.drop_first()));
    } else {
        lemma_encode_all_front(fs.drop_last());
        assert(fs.drop_last().drop_first() =~= fs.drop_first().drop_last());
        assert(fs.drop_first().last() == fs.last());
        assert(fs.drop_last()[0] == fs[0]);
        assert(encode_frame(fs[0]) + encode_all(fs.drop_first().drop_last()) + encode_frame(
            fs.last(),
        ) =~= encode_frame(fs[0]) + (encode_all(fs.drop_first().drop_last()) + encode_frame(
            fs.last(),
        )));
    }
}

/// A request's bytes, followed by anything, split off as one record.
proof fn lemma_request_record(m: (Seq<char>, BlockRunMode), rest: Seq<u8>)
    requires
        valid_request(m),
    ensures
        records(encode_frame(Some(m)) + rest) == seq![encode_utf8(request_line(m))] + records(
            rest,
        ),
        decode_record(encode_utf8(request_line(m))) == Some(m),
{
    let line = request_line(m);
    let p = encode_utf8(line);
    lemma_keywords();
    assert forall|i: int| 0 <= i < line.len() implies line[i] != '\r' by {
        assert(is_ws('\r'));
        let name = m.0;
        match m.1 {
            BlockRunMode::Normal => {
                if i >= 8 {
                    assert(line[i] == name[i - 8]);
                }
            },
            BlockRunMode::Button(b) => {
                let d = decimal(b as nat);
                lemma_decimal_digits(b as nat);
                if 7 <= i < 7 + d.len() {
                    assert(line[i] == d[i - 7]);
                    assert(is_digit(d[i - 7]));
                } else if i >= 8 + d.len() {
                    assert(line[i] == name[i - 8 - d.len()]);
                }
            },
        }
    }
    lemma_encode_no_cr(line);
    lemma_encode_concat(line, seq!['\r', '\n']);
    assert(encode_utf8(seq!['\r', '\n']) =~= seq![13u8, 10u8]) by {
        lemma_scalar_bytes(13u32);
        lemma_scalar_bytes(10u32);
        assert(seq!['\r', '\n'].drop_first() =~= seq!['\n']);
        assert(seq!['\n'].drop_first() =~= Seq::<char>::empty());
        assert(encode_scalar(13u32) =~= seq![13u8]);
        assert(encode_scalar(10u32) =~= seq![10u8]);
        assert(encode_utf8(seq!['\n']) =~= seq![10u8] + encode_utf8(Seq::<char>::empty()));
        assert(encode_utf8(seq!['\r', '\n']) =~= seq![13u8] + encode_utf8(seq!['\n']));
    }
    let s = encode_frame(Some(m)) + rest;
    assert(s =~= p + seq![13u8, 10u8] + rest);
    let k = p.len() as int;
    assert(crlf_at(s, k));
    assert forall|i: int| 0 <= i < k implies !crlf_at(s, i) by {
        assert(s[i] == p[i]);
    }
    lemma_records_first_crlf(s, seq![], k);
    assert(Seq::<u8>::empty() + s.take(k) =~= p);
    assert(s.skip(k + 2) =~= rest);
    encode_utf8_valid_utf8(line);
    encode_utf8_decode_utf8(line);
    assert(line =~= line + Seq::<char>::empty());
    lemma_decode_request_line(m, Seq::<char>::empty());
}

/// Encoding requests one after another and decoding the bytes gives the
/// same requests, in the same order.
pub proof fn law_buffered(ms: Seq<(Seq<char>, BlockRunMode)>)
    requires
        forall|i: int| 0 <= i < ms.len() ==> valid_request(#[trigger] ms[i]),
    ensures
        decode_all(encode_all(ms.map_values(|m: (Seq<char>, BlockRunMode)| Some(m))))
            == ms.map_values(|m: (Seq<char>, BlockRunMode)| Some(m)),
    decreases ms.len(),
{
    let fs = ms.map_values(|m: (Seq<char>, BlockRunMode)| Some(m));
    if ms.len() == 0 {
        assert(records(Seq::<u8>::empty()) =~= Seq::<Seq<u8>>::empty());
        assert(decode_all(encode_all(fs)) =~= fs);
    } else {
        let rest = ms.drop_first();
        assert forall|i: int| 0 <= i < rest.len() implies valid_request(#[trigger] rest[i]) by {
            assert(rest[i] == ms[i + 1]);
        }
        law_buffered(rest);
        lemma_encode_all_front(fs);
        assert(fs.drop_first() =~= rest.map_values(|m: (Seq<char>, BlockRunMode)| Some(m)));
        assert(valid_request(ms[0]));
        let e = encode_all(fs.drop_first());
        lemma_request_record(ms[0], e);
        let p = encode_utf8(request_line(ms[0]));
        assert(fs[0] == Some(ms[0]));
        assert(records(encode_all(fs)) == seq![p] + records(e));
        assert(decode_all(encode_all(fs)) =~= seq![Some(ms[0])] + decode_all(e));
        assert(decode_all(encode_all(fs)) =~= fs);
    }
}

/// The keyword's case does not matter: two ASCII keywords with the same
/// upper-case form, followed by the same text, decode alike.
pub proof fn law_keyword_case(k1: Seq<char>, k2: Seq<char>, rest: Seq<char>)
    requires
        k1.len() > 0,
        k2.len() > 0,
        no_ws(k1),
        no_ws(k2),
        is_ascii_chars(k1),
        is_ascii_chars(k2),
        ascii_upper_word(k1) == ascii_upper_word(k2),
        rest.len() == 0 || is_ws(rest[0]),
    ensures
        decode_text(k1 + rest) == decode_text(k2 + rest),
{
    lemma_words_word(k1, rest, seq![]);
    lemma_words_word(k2, rest, seq![]);
    assert(seq![] + k1 =~= k1);
    assert(seq![] + k2 =~= k2);
    let w1 = words(k1 + rest);
    let w2 = words(k2 + rest);
    if rest.len() > 0 {
        assert(words_from(rest, k1) == seq![k1] + words_from(rest.drop_first(), seq![]));
        assert(words_from(rest, k2) == seq![k2] + words_from(rest.drop_first(), seq![]));
    }
    assert(w1.len() == w2.len());
    assert(w1[0] == k1 && w2[0] == k2);
    assert(forall|i: int| 1 <= i < w1.len() ==> w1[i] == w2[i]);
}

/// Whitespace does not matter: runs of it between words, before the first
/// word and after the last one may be of any length and kind.
pub proof fn law_whitespace(a: Seq<char>, s1: Seq<char>, s2: Seq<char>, b: Seq<char>)
    requires
        all_ws(s1),
        all_ws(s2),
    ensures
        s1.len() > 0 && s2.len() > 0 ==> decode_text(a + s1 + b) == decode_text(a + s2 + b),
        decode_text(s1 + b) == decode_text(b),
        decode_text(a + s1) == decode_text(a),
{
    if s1.len() > 0 && s2.len() > 0 {
        lemma_words_inner_ws(a, s1, s2, b);
    }
    lemma_words_leading_ws(s1, b);
    lemma_words_trailing_ws(a, s1);
}

/// What is rejected: bytes that are empty or not UTF-8, text of only
/// whitespace, a word count other than two or three, and a button that is
/// not a number from 0 to 255.
pub proof fn law_rejection(b: Seq<u8>, t: Seq<char>)
    ensures
        b.len() == 0 ==> decode_record(b) is None,
        !valid_utf8(b) ==> decode_record(b) is None,
        all_ws(t) ==> decode_text(t) is None,
        words(t).len() != 2 && words(t).len() != 3 ==> decode_text(t) is None,
        words(t).len() == 3 && parse_u8(words(t)[1]) is None ==> decode_text(t) is None,
{
    if b.len() == 0 {
        encode_utf8_valid_utf8(Seq::<char>::empty());
        encode_utf8_decode_utf8(Seq::<char>::empty());
        assert(encode_utf8(Seq::<char>::empty()) =~= b);
    }
    if all_ws(t) {
        lemma_words_trailing_ws(Seq::<char>::empty(), t);
        assert(Seq::<char>::empty() + t =~= t);
    }
}

} // verus!
