//! The wire protocol between client and server: one request line, one
//! response line, each terminated by a newline. Keys and values on the
//! wire contain no spaces and no newlines; the parsers reject anything
//! else, and the round-trip lemmas show that a serialized message parses
//! back to itself.

use vstd::prelude::*;
use vstd::string::*;
use crate::KvError;
use crate::text::chars_to_string;
use crate::text::chars_range_to_string;
use crate::text::find_char_from;
use crate::text::match_at;
use crate::text::push_chars;
use crate::text::str_to_chars;

verus! {

/// An operation a client asks of the server.
#[derive(Debug)]
pub enum Operation {
    /// Assign a value to a key.
    Put(String, String),
    /// Read the value of a key.
    Get(String),
    /// Remove a key.
    Remove(String),
}

/// The mathematical content of an `Operation`.
pub enum OperationView {
    Put { k: Seq<char>, v: Seq<char> },
    Get { k: Seq<char> },
    Remove { k: Seq<char> },
}

impl View for Operation {
    type V = OperationView;

    open spec fn view(&self) -> OperationView {
        match self {
            Operation::Put(k, v) => OperationView::Put { k: k@, v: v@ },
            Operation::Get(k) => OperationView::Get { k: k@ },
            Operation::Remove(k) => OperationView::Remove { k: k@ },
        }
    }
}

impl Clone for Operation {
    fn clone(&self) -> (r: Self)
        ensures
            r@ == self@,
    {
        match self {
            Operation::Put(k, v) => Operation::Put(k.clone(), v.clone()),
            Operation::Get(k) => Operation::Get(k.clone()),
            Operation::Remove(k) => Operation::Remove(k.clone()),
        }
    }
}

/// A wire message's fields are legal: no spaces and no newlines, so that
/// the line holds exactly one whitespace-separated request.
pub open spec fn op_wf(op: OperationView) -> bool {
    match op {
        OperationView::Put { k, v } => !k.contains(' ') && !k.contains('\n') && !v.contains(' ')
            && !v.contains('\n'),
        OperationView::Get { k } => !k.contains(' ') && !k.contains('\n'),
        OperationView::Remove { k } => !k.contains(' ') && !k.contains('\n'),
    }
}

/// The request line an operation is sent as, without the terminating
/// newline.
pub open spec fn op_text(op: OperationView) -> Seq<char> {
    match op {
        OperationView::Put { k, v } => seq!['s', 'e', 't', ' '] + k + seq![' '] + v,
        OperationView::Get { k } => seq!['g', 'e', 't', ' '] + k,
        OperationView::Remove { k } => seq!['r', 'm', ' '] + k,
    }
}

/// The line with one terminating newline removed, if it has one.
pub open spec fn strip_nl(s: Seq<char>) -> Seq<char> {
    if s.len() > 0 && s.last() == '\n' {
        s.drop_last()
    } else {
        s
    }
}

/// The position of the first occurrence of a character.
pub open spec fn find_ch(s: Seq<char>, c: char) -> Option<int>
    decreases s.len(),
{
    if s.len() == 0 {
        None
    } else if s[0] == c {
        Some(0int)
    } else {
        match find_ch(s.skip(1), c) {
            Some(i) => Some(i + 1),
            None => None,
        }
    }
}

/// `find_ch` finds the first occurrence.
pub proof fn lemma_find_ch(s: Seq<char>, c: char)
    ensures
        match find_ch(s, c) {
            Some(i) => 0 <= i < s.len() && s[i] == c && forall|j: int| 0 <= j < i ==> s[j] != c,
            None => forall|j: int| 0 <= j < s.len() ==> s[j] != c,
        },
    decreases s.len(),
{
    if s.len() > 0 && s[0] != c {
        lemma_find_ch(s.skip(1), c);
        match find_ch(s.skip(1), c) {
            Some(i) => {
                assert forall|j: int| 0 <= j < i + 1 implies s[j] != c by {
                    if j > 0 {
                        assert(s.skip(1)[j - 1] == s[j]);
                    }
                }
                assert(s[i + 1] == s.skip(1)[i]);
            },
            None => {
                assert forall|j: int| 0 <= j < s.len() implies s[j] != c by {
                    if j > 0 {
                        assert(s.skip(1)[j - 1] == s[j]);
                    }
                }
            },
        }
    }
}

/// A first occurrence determines `find_ch`.
pub proof fn lemma_find_ch_exact(s: Seq<char>, c: char, i: int)
    requires
        0 <= i < s.len(),
        s[i] == c,
        forall|j: int| 0 <= j < i ==> s[j] != c,
    ensures
        find_ch(s, c) == Some(i),
    decreases i,
{
    if i > 0 {
        lemma_find_ch_exact(s.skip(1), c, i - 1);
    }
}

/// No occurrence means `find_ch` finds none.
pub proof fn lemma_find_ch_none(s: Seq<char>, c: char)
    requires
        forall|j: int| 0 <= j < s.len() ==> s[j] != c,
    ensures
        find_ch(s, c) is None,
    decreases s.len(),
{
    if s.len() > 0 {
        lemma_find_ch_none(s.skip(1), c);
    }
}

/// Parse a request line, already stripped of its newline. The opcode must
/// be one of `set`, `get`, `rm`, and the key — and for `set` the value —
/// must be free of spaces.
pub open spec fn parse_op(s: Seq<char>) -> Option<OperationView> {
    if s.len() >= 4 && s.subrange(0, 4) == seq!['s', 'e', 't', ' '] {
        let r = s.skip(4);
        match find_ch(r, ' ') {
            Some(i) => {
                let k = r.subrange(0, i);
                let v = r.skip(i + 1);
                if v.contains(' ') {
                    None
                } else {
                    Some(OperationView::Put { k, v })
                }
            },
            None => None,
        }
    } else if s.len() >= 4 && s.subrange(0, 4) == seq!['g', 'e', 't', ' '] {
        let k = s.skip(4);
        if k.contains(' ') {
            None
        } else {
            Some(OperationView::Get { k })
        }
    } else if s.len() >= 3 && s.subrange(0, 3) == seq!['r', 'm', ' '] {
        let k = s.skip(3);
        if k.contains(' ') {
            None
        } else {
            Some(OperationView::Remove { k })
        }
    } else {
        None
    }
}

/// Drop one trailing newline, where the line ends in one.
pub fn remove_newline_from_end(s: String) -> (r: String)
    ensures
        r@ == strip_nl(s@),
{
    let n = s.as_str().unicode_len();
    if n == 0 {
        return s;
    }
    let lastc = s.as_str().get_char(n - 1);
    if lastc == '\n' {
        let t = s.as_str().substring_char(0, n - 1);
        proof {
            assert(s@.subrange(0, n - 1) =~= s@.drop_last());
        }
        String::from_str(t)
    } else {
        s
    }
}

impl Operation {
    /// The request line for this operation, without the terminating
    /// newline.
    pub fn to_text(&self) -> (r: String)
        ensures
            r@ == op_text(self@),
    {
        let mut out: Vec<char> = Vec::new();
        match self {
            Operation::Put(k, v) => {
                out.push('s');
                out.push('e');
                out.push('t');
                out.push(' ');
                push_chars(&mut out, k.as_str());
                out.push(' ');
                push_chars(&mut out, v.as_str());
                proof {
                    assert(out@ =~= op_text(self@));
                }
            },
            Operation::Get(k) => {
                out.push('g');
                out.push('e');
                out.push('t');
                out.push(' ');
                push_chars(&mut out, k.as_str());
                proof {
                    assert(out@ =~= op_text(self@));
                }
            },
            Operation::Remove(k) => {
                out.push('r');
                out.push('m');
                out.push(' ');
                push_chars(&mut out, k.as_str());
                proof {
                    assert(out@ =~= op_text(self@));
                }
            },
        }
        chars_to_string(&out)
    }

    /// Parse a request line as received, newline and all. Fails with
    /// `ProtocolParse` exactly when the stripped line is no request.
    pub fn from_text(req: String) -> (r: Result<Operation, KvError>)
        ensures
            match r {
                Ok(op) => parse_op(strip_nl(req@)) == Some(op@),
                Err(e) => e == KvError::ProtocolParse && parse_op(strip_nl(req@)) is None,
            },
    {
        let stripped = remove_newline_from_end(req);
        let chars = str_to_chars(stripped.as_str());
        let ghost s = strip_nl(req@);
        proof {
            assert(chars.len() == chars@.len());
        }
        let mut set_pre: Vec<char> = Vec::new();
        set_pre.push('s');
        set_pre.push('e');
        set_pre.push('t');
        set_pre.push(' ');
        let mut get_pre: Vec<char> = Vec::new();
        get_pre.push('g');
        get_pre.push('e');
        get_pre.push('t');
        get_pre.push(' ');
        let mut rm_pre: Vec<char> = Vec::new();
        rm_pre.push('r');
        rm_pre.push('m');
        rm_pre.push(' ');
        proof {
            assert(set_pre@ =~= seq!['s', 'e', 't', ' ']);
            assert(get_pre@ =~= seq!['g', 'e', 't', ' ']);
            assert(rm_pre@ =~= seq!['r', 'm', ' ']);
        }
        if match_at(&chars, 0, &set_pre) {
            proof {
                assert(s.subrange(0, 4) == seq!['s', 'e', 't', ' ']);
            }
            let ghost rest = s.skip(4);
            match find_char_from(&chars, 4, ' ') {
                Some(i) => {
                    proof {
                        assert(rest[i - 4] == ' ');
                        assert forall|j: int| 0 <= j < i - 4 implies rest[j] != ' ' by {
                            assert(rest[j] == s[4 + j]);
                        }
                        lemma_find_ch_exact(rest, ' ', i - 4);
                    }
                    let k = chars_range_to_string(&chars, 4, i);
                    proof {
                        assert(k@ =~= rest.subrange(0, i - 4));
                    }
                    match find_char_from(&chars, i + 1, ' ') {
                        Some(_) => {
                            proof {
                                assert(rest.skip(i - 4 + 1).contains(' ')) by {
                                    let j = choose|j: int|
                                        i + 1 <= j < s.len() && s[j] == ' ';
                                    assert(rest.skip(i - 4 + 1)[j - i - 1] == s[j]);
                                }
                            }
                            Err(KvError::ProtocolParse)
                        },
                        None => {
                            let v = chars_range_to_string(&chars, i + 1, chars.len());
                            proof {
                                assert(v@ =~= rest.skip(i - 4 + 1));
                                if v@.contains(' ') {
                                    let j = choose|j: int| 0 <= j < v@.len() && v@[j] == ' ';
                                    assert(s[i + 1 + j] == v@[j]);
                                }
                            }
                            Ok(Operation::Put(k, v))
                        },
                    }
                },
                None => {
                    proof {
                        assert forall|j: int| 0 <= j < rest.len() implies rest[j] != ' ' by {
                            assert(rest[j] == s[4 + j]);
                        }
                        lemma_find_ch_none(rest, ' ');
                    }
                    Err(KvError::ProtocolParse)
                },
            }
        } else if match_at(&chars, 0, &get_pre) {
            proof {
                assert(s.subrange(0, 4) == seq!['g', 'e', 't', ' ']);
                if s.len() >= 4 && s.subrange(0, 4) == seq!['s', 'e', 't', ' '] {
                    assert(s.subrange(0, 4)[0] == 's');
                    assert(false);
                }
            }
            match find_char_from(&chars, 4, ' ') {
                Some(_) => {
                    proof {
                        let j = choose|j: int| 4 <= j < s.len() && s[j] == ' ';
                        assert(s.skip(4)[j - 4] == s[j]);
                    }
                    Err(KvError::ProtocolParse)
                },
                None => {
                    let k = chars_range_to_string(&chars, 4, chars.len());
                    proof {
                        assert(k@ =~= s.skip(4));
                        if k@.contains(' ') {
                            let j = choose|j: int| 0 <= j < k@.len() && k@[j] == ' ';
                            assert(s[4 + j] == k@[j]);
                        }
                    }
                    Ok(Operation::Get(k))
                },
            }
        } else if match_at(&chars, 0, &rm_pre) {
            proof {
                assert(s.subrange(0, 3) == seq!['r', 'm', ' ']);
                if s.len() >= 4 && s.subrange(0, 4) == seq!['s', 'e', 't', ' '] {
                    assert(s.subrange(0, 4)[0] == 's');
                    assert(s.subrange(0, 3)[0] == 'r');
                    assert(false);
                }
                if s.len() >= 4 && s.subrange(0, 4) == seq!['g', 'e', 't', ' '] {
                    assert(s.subrange(0, 4)[0] == 'g');
                    assert(s.subrange(0, 3)[0] == 'r');
                    assert(false);
                }
            }
            match find_char_from(&chars, 3, ' ') {
                Some(_) => {
                    proof {
                        let j = choose|j: int| 3 <= j < s.len() && s[j] == ' ';
                        assert(s.skip(3)[j - 3] == s[j]);
                    }
                    Err(KvError::ProtocolParse)
                },
                None => {
                    let k = chars_range_to_string(&chars, 3, chars.len());
                    proof {
                        assert(k@ =~= s.skip(3));
                        if k@.contains(' ') {
                            let j = choose|j: int| 0 <= j < k@.len() && k@[j] == ' ';
                            assert(s[3 + j] == k@[j]);
                        }
                    }
                    Ok(Operation::Remove(k))
                },
            }
        } else {
            Err(KvError::ProtocolParse)
        }
    }
}

/// A serialized request parses back to itself.
pub proof fn lemma_op_roundtrip(op: OperationView)
    requires
        op_wf(op),
    ensures
        parse_op(op_text(op)) == Some(op),
{
    let s = op_text(op);
    match op {
        OperationView::Put { k, v } => {
            assert(s =~= seq!['s', 'e', 't', ' '] + k + seq![' '] + v);
            assert(s.subrange(0, 4) =~= seq!['s', 'e', 't', ' ']);
            let r = s.skip(4);
            assert(r =~= k + seq![' '] + v);
            assert(r[k.len() as int] == ' ');
            assert forall|j: int| 0 <= j < k.len() implies r[j] != ' ' by {
                assert(r[j] == k[j]);
                if k[j] == ' ' {
                    assert(k.contains(' '));
                }
            }
            lemma_find_ch_exact(r, ' ', k.len() as int);
            assert(r.subrange(0, k.len() as int) =~= k);
            assert(r.skip(k.len() as int + 1) =~= v);
        },
        OperationView::Get { k } => {
            assert(s =~= seq!['g', 'e', 't', ' '] + k);
            assert(s.subrange(0, 4) =~= seq!['g', 'e', 't', ' ']);
            if s.len() >= 4 && s.subrange(0, 4) == seq!['s', 'e', 't', ' '] {
                assert(s.subrange(0, 4)[0] == 'g');
                assert(false);
            }
            assert(s.skip(4) =~= k);
        },
        OperationView::Remove { k } => {
            assert(s =~= seq!['r', 'm', ' '] + k);
            assert(s.subrange(0, 3) =~= seq!['r', 'm', ' ']);
            if s.len() >= 4 && s.subrange(0, 4) == seq!['s', 'e', 't', ' '] {
                assert(s.subrange(0, 4)[0] == 'r');
                assert(false);
            }
            if s.len() >= 4 && s.subrange(0, 4) == seq!['g', 'e', 't', ' '] {
                assert(s.subrange(0, 4)[0] == 'r');
                assert(false);
            }
            assert(s.skip(3) =~= k);
        },
    }
}

/// Stripping the newline the sender appends gives the line back.
pub proof fn lemma_strip_appended_newline(s: Seq<char>)
    ensures
        strip_nl(s.push('\n')) == s,
{
    assert(s.push('\n').drop_last() =~= s);
}

/// Whether the server carried an operation out.
#[derive(Clone, Copy, Debug, PartialEq, Eq, Structural)]
pub enum ResponseStatus {
    /// The operation succeeded; requested data, if any, follows.
    Okay,
    /// The operation failed.
    Fail,
}

/// Parse a status word, already stripped of its newline.
pub open spec fn parse_status(s: Seq<char>) -> Option<ResponseStatus> {
    if s == seq!['O', 'K'] {
        Some(ResponseStatus::Okay)
    } else if s == seq!['F', 'A', 'I', 'L'] {
        Some(ResponseStatus::Fail)
    } else {
        None
    }
}

impl ResponseStatus {
    /// Parse a status word exactly: `OK`, `FAIL`, or nothing.
    pub fn from_word(text: &str) -> (r: Option<ResponseStatus>)
        ensures
            r == parse_status(text@),
    {
        let chars = str_to_chars(text);
        let ghost s = text@;
        if chars.len() == 2 {
            if chars[0] == 'O' && chars[1] == 'K' {
                proof {
                    assert(s =~= seq!['O', 'K']);
                }
                return Some(ResponseStatus::Okay);
            }
            proof {
                if s == seq!['O', 'K'] {
                    assert(s[0] == 'O' && s[1] == 'K');
                }
                if s == seq!['F', 'A', 'I', 'L'] {
                    assert(s.len() == 4);
                }
            }
            return None;
        }
        if chars.len() == 4 {
            if chars[0] == 'F' && chars[1] == 'A' && chars[2] == 'I' && chars[3] == 'L' {
                proof {
                    assert(s =~= seq!['F', 'A', 'I', 'L']);
                }
                return Some(ResponseStatus::Fail);
            }
            proof {
                if s == seq!['F', 'A', 'I', 'L'] {
                    assert(s[0] == 'F' && s[1] == 'A' && s[2] == 'I' && s[3] == 'L');
                }
                if s == seq!['O', 'K'] {
                    assert(s.len() == 2);
                }
            }
            return None;
        }
        proof {
            if s == seq!['O', 'K'] {
                assert(s.len() == 2);
            }
            if s == seq!['F', 'A', 'I', 'L'] {
                assert(s.len() == 4);
            }
        }
        None
    }

    /// Parse a status word as received, newline and all. Fails with
    /// `ProtocolParse` exactly when the stripped word is neither `OK` nor
    /// `FAIL`.
    pub fn from_text(text: String) -> (r: Result<ResponseStatus, KvError>)
        ensures
            match r {
                Ok(st) => parse_status(strip_nl(text@)) == Some(st),
                Err(e) => e == KvError::ProtocolParse && parse_status(strip_nl(text@)) is None,
            },
    {
        let stripped = remove_newline_from_end(text);
        match ResponseStatus::from_word(stripped.as_str()) {
            Some(st) => Ok(st),
            None => Err(KvError::ProtocolParse),
        }
    }
}

/// What the server sends back: a status, and for a successful `get` of a
/// present key the value.
#[derive(Debug)]
pub struct Response {
    /// Whether the operation was carried out.
    pub status: ResponseStatus,
    /// The data the operation asked for, if any.
    pub data: Option<String>,
}

/// The mathematical content of a `Response`.
pub struct ResponseView {
    pub status: ResponseStatus,
    pub data: Option<Seq<char>>,
}

impl View for Response {
    type V = ResponseView;

    open spec fn view(&self) -> ResponseView {
        ResponseView {
            status: self.status,
            data: match &self.data {
                Some(d) => Some(d@),
                None => None,
            },
        }
    }
}

/// A response's data is legal on the wire: no spaces and no newlines, and
/// a failure carries no data, as `to_text` sends none.
pub open spec fn resp_wf(r: ResponseView) -> bool {
    &&& (match r.data {
        Some(d) => !d.contains(' ') && !d.contains('\n'),
        None => true,
    })
    &&& (r.status is Fail ==> r.data is None)
}

/// The response line a response is sent as, without the terminating
/// newline: `OK`, `OK <data>`, or `FAIL`.
pub open spec fn resp_text(r: ResponseView) -> Seq<char> {
    match r.status {
        ResponseStatus::Okay => match r.data {
            Some(d) => seq!['O', 'K', ' '] + d,
            None => seq!['O', 'K'],
        },
        ResponseStatus::Fail => seq!['F', 'A', 'I', 'L'],
    }
}

/// Parse a response line, already stripped of its newline: a status word,
/// optionally followed by one space and the data.
pub open spec fn parse_resp(s: Seq<char>) -> Option<ResponseView> {
    match find_ch(s, ' ') {
        Some(i) => {
            let head = s.subrange(0, i);
            let tail = s.skip(i + 1);
            if tail.contains(' ') {
                None
            } else {
                match parse_status(head) {
                    Some(st) => Some(ResponseView { status: st, data: Some(tail) }),
                    None => None,
                }
            }
        },
        None => match parse_status(s) {
            Some(st) => Some(ResponseView { status: st, data: None }),
            None => None,
        },
    }
}

impl Response {
    /// The response line for this response, without the terminating
    /// newline. A failure is sent as `FAIL` alone, whatever data it holds.
    pub fn to_text(&self) -> (r: String)
        ensures
            r@ == resp_text(self@),
    {
        let mut out: Vec<char> = Vec::new();
        match &self.status {
            ResponseStatus::Okay => {
                out.push('O');
                out.push('K');
                match &self.data {
                    Some(d) => {
                        out.push(' ');
                        push_chars(&mut out, d.as_str());
                        proof {
                            assert(out@ =~= resp_text(self@));
                        }
                    },
                    None => {
                        proof {
                            assert(out@ =~= resp_text(self@));
                        }
                    },
                }
            },
            ResponseStatus::Fail => {
                out.push('F');
                out.push('A');
                out.push('I');
                out.push('L');
                proof {
                    assert(out@ =~= resp_text(self@));
                }
            },
        }
        chars_to_string(&out)
    }

    /// Parse a response line as received, newline and all. Fails with
    /// `ProtocolParse` exactly when the stripped line is no response.
    pub fn from_text(req: String) -> (r: Result<Response, KvError>)
        ensures
            match r {
                Ok(resp) => parse_resp(strip_nl(req@)) == Some(resp@),
                Err(e) => e == KvError::ProtocolParse && parse_resp(strip_nl(req@)) is None,
            },
    {
        let stripped = remove_newline_from_end(req);
        let chars = str_to_chars(stripped.as_str());
        let ghost s = strip_nl(req@);
        proof {
            assert(chars.len() == chars@.len());
        }
        match find_char_from(&chars, 0, ' ') {
            Some(i) => {
                proof {
                    lemma_find_ch_exact(s, ' ', i as int);
                }
                let head = chars_range_to_string(&chars, 0, i);
                match find_char_from(&chars, i + 1, ' ') {
                    Some(_) => {
                        proof {
                            let j = choose|j: int| i + 1 <= j < s.len() && s[j] == ' ';
                            assert(s.skip(i + 1)[j - i - 1] == s[j]);
                        }
                        Err(KvError::ProtocolParse)
                    },
                    None => {
                        let tail = chars_range_to_string(&chars, i + 1, chars.len());
                        proof {
                            assert(tail@ =~= s.skip(i as int + 1));
                            if tail@.contains(' ') {
                                let j = choose|j: int| 0 <= j < tail@.len() && tail@[j] == ' ';
                                assert(s[i + 1 + j] == tail@[j]);
                            }
                            assert(head@ == s.subrange(0, i as int));
                        }
                        match ResponseStatus::from_word(head.as_str()) {
                            Some(st) => Ok(Response { status: st, data: Some(tail) }),
                            None => Err(KvError::ProtocolParse),
                        }
                    },
                }
            },
            None => {
                proof {
                    lemma_find_ch_none(s, ' ');
                }
                match ResponseStatus::from_word(stripped.as_str()) {
                    Some(st) => Ok(Response { status: st, data: None }),
                    None => Err(KvError::ProtocolParse),
                }
            },
        }
    }
}

/// A serialized response parses back to itself.
pub proof fn lemma_resp_roundtrip(r: ResponseView)
    requires
        resp_wf(r),
    ensures
        parse_resp(resp_text(r)) == Some(r),
{
    let s = resp_text(r);
    match r.status {
        ResponseStatus::Okay => {
            match r.data {
                Some(d) => {
                    assert(s =~= seq!['O', 'K', ' '] + d);
                    assert(s[2] == ' ');
                    assert(s[0] == 'O' && s[1] == 'K');
                    lemma_find_ch_exact(s, ' ', 2);
                    assert(s.subrange(0, 2) =~= seq!['O', 'K']);
                    assert(s.skip(3) =~= d);
                },
                None => {
                    assert(s =~= seq!['O', 'K']);
                    lemma_find_ch_none(s, ' ');
                },
            }
        },
        ResponseStatus::Fail => {
            assert(s =~= seq!['F', 'A', 'I', 'L']);
            lemma_find_ch_none(s, ' ');
            if s == seq!['O', 'K'] {
                assert(s.len() == 2);
            }
        },
    }
}

} // verus!
