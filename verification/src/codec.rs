//! The on-disk record format of the command log.
//!
//! Each record is one line of JSON holding a single command. The encoder
//! and the parser below are each other's inverses
//! (`lemma_parse_encode_roundtrip`), and an encoded line never contains a
//! newline (`lemma_encode_line_free_of_newline`), so lines can frame
//! records.

use vstd::prelude::*;
use crate::text::chars_to_string;
use crate::text::str_to_chars;
use crate::text::match_at;

verus! {

/// A key/value pair, the unit stored by the store.
pub struct Pair {
    k: String,
    v: String,
}

/// The mathematical content of a `Pair`: its key and value as character
/// sequences.
pub struct PairView {
    pub k: Seq<char>,
    pub v: Seq<char>,
}

impl View for Pair {
    type V = PairView;

    closed spec fn view(&self) -> PairView {
        PairView { k: self.k@, v: self.v@ }
    }
}

impl Pair {
    /// Build a pair from a key and a value.
    pub fn new(k: String, v: String) -> (p: Pair)
        ensures
            p@.k == k@,
            p@.v == v@,
    {
        Pair { k, v }
    }

    /// The key of the pair.
    pub fn key(&self) -> (r: &String)
        ensures
            r@ == self@.k,
    {
        &self.k
    }

    /// The value of the pair.
    pub fn value(&self) -> (r: &String)
        ensures
            r@ == self@.v,
    {
        &self.v
    }
}

impl Clone for Pair {
    fn clone(&self) -> (r: Self)
        ensures
            r == *self,
    {
        Pair { k: self.k.clone(), v: self.v.clone() }
    }
}

/// A command entered into the log.
pub enum Command {
    /// Write or overwrite the value of a key.
    Put(Pair),
    /// A tombstone: the key is removed.
    Remove(String),
}

/// The mathematical content of a `Command`.
pub enum CommandView {
    Put { k: Seq<char>, v: Seq<char> },
    Remove { k: Seq<char> },
}

impl CommandView {
    /// The key the command concerns.
    pub open spec fn key(self) -> Seq<char> {
        match self {
            CommandView::Put { k, .. } => k,
            CommandView::Remove { k } => k,
        }
    }
}

impl View for Command {
    type V = CommandView;

    open spec fn view(&self) -> CommandView {
        match self {
            Command::Put(p) => CommandView::Put { k: p@.k, v: p@.v },
            Command::Remove(k) => CommandView::Remove { k: k@ },
        }
    }
}

impl Clone for Command {
    fn clone(&self) -> (r: Self)
        ensures
            r@ == self@,
    {
        match self {
            Command::Put(p) => Command::Put(p.clone()),
            Command::Remove(k) => Command::Remove(k.clone()),
        }
    }
}

/// The lower-case hexadecimal digit of a value below sixteen.
pub open spec fn hex_digit(d: int) -> char {
    if d == 0 { '0' } else if d == 1 { '1' } else if d == 2 { '2' } else if d == 3 { '3' }
    else if d == 4 { '4' } else if d == 5 { '5' } else if d == 6 { '6' } else if d == 7 { '7' }
    else if d == 8 { '8' } else if d == 9 { '9' } else if d == 10 { 'a' } else if d == 11 { 'b' }
    else if d == 12 { 'c' } else if d == 13 { 'd' } else if d == 14 { 'e' } else { 'f' }
}

/// The value of a lower-case hexadecimal digit.
pub open spec fn hex_val(c: char) -> Option<int> {
    if c == '0' { Some(0int) } else if c == '1' { Some(1int) } else if c == '2' { Some(2int) }
    else if c == '3' { Some(3int) } else if c == '4' { Some(4int) } else if c == '5' { Some(5int) }
    else if c == '6' { Some(6int) } else if c == '7' { Some(7int) } else if c == '8' { Some(8int) }
    else if c == '9' { Some(9int) } else if c == 'a' { Some(10int) } else if c == 'b' { Some(11int) }
    else if c == 'c' { Some(12int) } else if c == 'd' { Some(13int) } else if c == 'e' { Some(14int) }
    else if c == 'f' { Some(15int) } else { None }
}

/// How one character is written inside a JSON string: quotes, backslashes
/// and the named control characters get a two-character escape, the other
/// control characters a `\u00..` escape, everything else stands as itself.
pub open spec fn esc_char(c: char) -> Seq<char> {
    if c == '"' { seq!['\\', '"'] }
    else if c == '\\' { seq!['\\', '\\'] }
    else if c == '\n' { seq!['\\', 'n'] }
    else if c == '\r' { seq!['\\', 'r'] }
    else if c == '\t' { seq!['\\', 't'] }
    else if (c as u32) < 32 {
        seq!['\\', 'u', '0', '0', hex_digit((c as u32) as int / 16), hex_digit((c as u32) as int % 16)]
    } else {
        seq![c]
    }
}

/// How a whole string is written inside a JSON string.
pub open spec fn esc(s: Seq<char>) -> Seq<char>
    decreases s.len(),
{
    if s.len() == 0 {
        Seq::<char>::empty()
    } else {
        esc_char(s[0]) + esc(s.skip(1))
    }
}

/// The characters that open a `Set` record, up to and including the
/// opening quote of the key.
pub open spec fn set_open() -> Seq<char> {
    seq!['{', '"', 'S', 'e', 't', '"', ':', '{', '"', 'k', '"', ':', '"']
}

/// The characters between the key and the value of a `Set` record,
/// after the closing quote of the key, up to and including the opening
/// quote of the value.
pub open spec fn set_mid() -> Seq<char> {
    seq![',', '"', 'v', '"', ':', '"']
}

/// The characters that close a `Set` record, after the closing quote of
/// the value.
pub open spec fn set_close() -> Seq<char> {
    seq!['}', '}']
}

/// The characters that open a `Remove` record, up to and including the
/// opening quote of the key.
pub open spec fn remove_open() -> Seq<char> {
    seq!['{', '"', 'R', 'e', 'm', 'o', 'v', 'e', '"', ':', '"']
}

/// The character that closes a `Remove` record, after the closing quote
/// of the key.
pub open spec fn remove_close() -> Seq<char> {
    seq!['}']
}

/// The one line of JSON that records a command in the log.
pub open spec fn encode_cmd(c: CommandView) -> Seq<char> {
    match c {
        CommandView::Put { k, v } =>
            set_open() + esc(k) + seq!['"'] + set_mid() + esc(v) + seq!['"'] + set_close(),
        CommandView::Remove { k } =>
            remove_open() + esc(k) + seq!['"'] + remove_close(),
    }
}

/// The escape for a digit, executable form.
fn hex_digit_char(d: u8) -> (c: char)
    requires
        d < 16,
    ensures
        c == hex_digit(d as int),
{
    if d == 0 { '0' } else if d == 1 { '1' } else if d == 2 { '2' } else if d == 3 { '3' }
    else if d == 4 { '4' } else if d == 5 { '5' } else if d == 6 { '6' } else if d == 7 { '7' }
    else if d == 8 { '8' } else if d == 9 { '9' } else if d == 10 { 'a' } else if d == 11 { 'b' }
    else if d == 12 { 'c' } else if d == 13 { 'd' } else if d == 14 { 'e' } else { 'f' }
}

/// Append the escape of one character.
fn push_esc_char(out: &mut Vec<char>, c: char)
    ensures
        final(out)@ == old(out)@ + esc_char(c),
{
    if c == '"' {
        out.push('\\');
        out.push('"');
    } else if c == '\\' {
        out.push('\\');
        out.push('\\');
    } else if c == '\n' {
        out.push('\\');
        out.push('n');
    } else if c == '\r' {
        out.push('\\');
        out.push('r');
    } else if c == '\t' {
        out.push('\\');
        out.push('t');
    } else if (c as u32) < 32 {
        let n = c as u32;
        out.push('\\');
        out.push('u');
        out.push('0');
        out.push('0');
        out.push(hex_digit_char((n / 16) as u8));
        out.push(hex_digit_char((n % 16) as u8));
    } else {
        out.push(c);
    }
    proof {
        assert(out@ =~= old(out)@ + esc_char(c));
    }
}

/// `esc` distributes over concatenation.
pub proof fn lemma_esc_concat(a: Seq<char>, b: Seq<char>)
    ensures
        esc(a + b) == esc(a) + esc(b),
    decreases a.len(),
{
    if a.len() == 0 {
        assert(a + b =~= b);
        assert(esc(a) + esc(b) =~= esc(b));
    } else {
        lemma_esc_concat(a.skip(1), b);
        assert((a + b).skip(1) =~= a.skip(1) + b);
        assert(esc(a + b) =~= esc(a) + esc(b));
    }
}

/// Append the escaped form of a whole string.
fn push_escaped(out: &mut Vec<char>, s: &str)
    ensures
        final(out)@ == old(out)@ + esc(s@),
{
    let n = s.unicode_len();
    let mut i: usize = 0;
    proof {
        assert(s@.subrange(0, 0) =~= Seq::<char>::empty());
        assert(out@ =~= out@ + esc(s@.subrange(0, 0)));
    }
    while i < n
        invariant
            n == s@.len(),
            i <= n,
            out@ == old(out)@ + esc(s@.subrange(0, i as int)),
        decreases n - i,
    {
        let c = s.get_char(i);
        push_esc_char(out, c);
        proof {
            let pre = s@.subrange(0, i as int);
            let one = seq![s@[i as int]];
            assert(s@.subrange(0, i as int + 1) =~= pre + one);
            lemma_esc_concat(pre, one);
            assert(one.skip(1) =~= Seq::<char>::empty());
            assert(esc(one.skip(1)) =~= Seq::<char>::empty());
            assert(esc(one) =~= esc_char(s@[i as int]) + esc(one.skip(1)));
            assert(esc(one) =~= esc_char(s@[i as int]));
            assert(out@ =~= old(out)@ + esc(s@.subrange(0, i as int + 1)));
        }
        i = i + 1;
    }
    proof {
        assert(s@.subrange(0, n as int) =~= s@);
    }
}

impl Command {
    /// The log line that records this command, without the terminating
    /// newline.
    pub fn to_line(&self) -> (r: String)
        ensures
            r@ == encode_cmd(self@),
    {
        let mut out: Vec<char> = Vec::new();
        match self {
            Command::Put(p) => {
                out.push('{');
                out.push('"');
                out.push('S');
                out.push('e');
                out.push('t');
                out.push('"');
                out.push(':');
                out.push('{');
                out.push('"');
                out.push('k');
                out.push('"');
                out.push(':');
                out.push('"');
                proof {
                    assert(out@ =~= set_open());
                }
                push_escaped(&mut out, p.key().as_str());
                out.push('"');
                out.push(',');
                out.push('"');
                out.push('v');
                out.push('"');
                out.push(':');
                out.push('"');
                proof {
                    assert(out@ =~= set_open() + esc(self@->Put_k) + seq!['"'] + set_mid());
                }
                push_escaped(&mut out, p.value().as_str());
                out.push('"');
                out.push('}');
                out.push('}');
                proof {
                    assert(out@ =~= encode_cmd(self@));
                }
            },
            Command::Remove(k) => {
                out.push('{');
                out.push('"');
                out.push('R');
                out.push('e');
                out.push('m');
                out.push('o');
                out.push('v');
                out.push('e');
                out.push('"');
                out.push(':');
                out.push('"');
                proof {
                    assert(out@ =~= remove_open());
                }
                push_escaped(&mut out, k.as_str());
                out.push('"');
                out.push('}');
                proof {
                    assert(out@ =~= encode_cmd(self@));
                }
            },
        }
        chars_to_string(&out)
    }
}

/// The single-character escapes, by the character after the backslash.
pub open spec fn simple_unesc(c: char) -> Option<char> {
    if c == '"' { Some('"') } else if c == '\\' { Some('\\') } else if c == 'n' { Some('\n') }
    else if c == 'r' { Some('\r') } else if c == 't' { Some('\t') } else { None }
}

/// The character a `\u00..` escape with the given digit values stands for.
pub open spec fn hex_pair_char(h: int, l: int) -> char {
    ((16 * h + l) as u8) as char
}

/// Decode the escaped content of a JSON string up to and including its
/// closing quote: the content, and how many characters were consumed.
pub open spec fn unesc_prefix(s: Seq<char>) -> Option<(Seq<char>, int)>
    decreases s.len(),
{
    if s.len() == 0 {
        None
    } else if s[0] == '"' {
        Some((Seq::<char>::empty(), 1int))
    } else if s[0] == '\\' {
        if s.len() >= 2 && simple_unesc(s[1]) is Some {
            match unesc_prefix(s.skip(2)) {
                Some(r) => Some((seq![simple_unesc(s[1])->Some_0] + r.0, 2 + r.1)),
                None => None,
            }
        } else if s.len() >= 6 && s[1] == 'u' && s[2] == '0' && s[3] == '0'
            && hex_val(s[4]) is Some && hex_val(s[5]) is Some {
            match unesc_prefix(s.skip(6)) {
                Some(r) => Some(
                    (seq![hex_pair_char(hex_val(s[4])->Some_0, hex_val(s[5])->Some_0)] + r.0, 6 + r.1),
                ),
                None => None,
            }
        } else {
            None
        }
    } else if 32 <= s[0] as u32 {
        match unesc_prefix(s.skip(1)) {
            Some(r) => Some((seq![s[0]] + r.0, 1 + r.1)),
            None => None,
        }
    } else {
        None
    }
}

/// Parse one line as a command record; `None` where the line is not a
/// record this format produces.
pub open spec fn parse_cmd(s: Seq<char>) -> Option<CommandView> {
    if s.len() >= 13 && s.subrange(0, 13) == set_open() {
        match unesc_prefix(s.skip(13)) {
            Some(kr) => {
                let t = s.skip(13 + kr.1);
                if t.len() >= 6 && t.subrange(0, 6) == set_mid() {
                    match unesc_prefix(t.skip(6)) {
                        Some(vr) => {
                            if t.skip(6).skip(vr.1) == set_close() {
                                Some(CommandView::Put { k: kr.0, v: vr.0 })
                            } else {
                                None
                            }
                        },
                        None => None,
                    }
                } else {
                    None
                }
            },
            None => None,
        }
    } else if s.len() >= 11 && s.subrange(0, 11) == remove_open() {
        match unesc_prefix(s.skip(11)) {
            Some(kr) => {
                if s.skip(11).skip(kr.1) == remove_close() {
                    Some(CommandView::Remove { k: kr.0 })
                } else {
                    None
                }
            },
            None => None,
        }
    } else {
        None
    }
}

/// The value of one hexadecimal digit, executable form.
fn hex_value(c: char) -> (r: Option<u8>)
    ensures
        match r {
            Some(v) => v < 16 && hex_val(c) == Some(v as int),
            None => hex_val(c) is None,
        },
{
    if c == '0' { Some(0) } else if c == '1' { Some(1) } else if c == '2' { Some(2) }
    else if c == '3' { Some(3) } else if c == '4' { Some(4) } else if c == '5' { Some(5) }
    else if c == '6' { Some(6) } else if c == '7' { Some(7) } else if c == '8' { Some(8) }
    else if c == '9' { Some(9) } else if c == 'a' { Some(10) } else if c == 'b' { Some(11) }
    else if c == 'c' { Some(12) } else if c == 'd' { Some(13) } else if c == 'e' { Some(14) }
    else if c == 'f' { Some(15) } else { None }
}

/// The single-character escapes, executable form.
fn simple_unescape(c: char) -> (r: Option<char>)
    ensures
        r == simple_unesc(c),
{
    if c == '"' { Some('"') } else if c == '\\' { Some('\\') } else if c == 'n' { Some('\n') }
    else if c == 'r' { Some('\r') } else if c == 't' { Some('\t') } else { None }
}

/// The opening characters of a `Set` record, as a vector.
fn set_open_vec() -> (v: Vec<char>)
    ensures
        v@ == set_open(),
{
    let mut v: Vec<char> = Vec::new();
    v.push('{');
    v.push('"');
    v.push('S');
    v.push('e');
    v.push('t');
    v.push('"');
    v.push(':');
    v.push('{');
    v.push('"');
    v.push('k');
    v.push('"');
    v.push(':');
    v.push('"');
    proof {
        assert(v@ =~= set_open());
    }
    v
}

/// The characters between key and value of a `Set` record, as a vector.
fn set_mid_vec() -> (v: Vec<char>)
    ensures
        v@ == set_mid(),
{
    let mut v: Vec<char> = Vec::new();
    v.push(',');
    v.push('"');
    v.push('v');
    v.push('"');
    v.push(':');
    v.push('"');
    proof {
        assert(v@ =~= set_mid());
    }
    v
}

/// The opening characters of a `Remove` record, as a vector.
fn remove_open_vec() -> (v: Vec<char>)
    ensures
        v@ == remove_open(),
{
    let mut v: Vec<char> = Vec::new();
    v.push('{');
    v.push('"');
    v.push('R');
    v.push('e');
    v.push('m');
    v.push('o');
    v.push('v');
    v.push('e');
    v.push('"');
    v.push(':');
    v.push('"');
    proof {
        assert(v@ =~= remove_open());
    }
    v
}

/// Decode the escaped content of a JSON string that starts at `start`,
/// up to its closing quote. Returns the content and the position just
/// after the closing quote.
fn unescape_from(line: &Vec<char>, start: usize) -> (r: Option<(Vec<char>, usize)>)
    requires
        start <= line@.len(),
    ensures
        match r {
            Some(p) => start < p.1 && p.1 <= line@.len()
                && unesc_prefix(line@.skip(start as int)) == Some((p.0@, p.1 - start)),
            None => unesc_prefix(line@.skip(start as int)) is None,
        },
{
    let mut out: Vec<char> = Vec::new();
    let mut i: usize = start;
    proof {
        assert(line.len() == line@.len());
    }
    loop
        invariant
            start <= i <= line@.len(),
            line@.len() <= usize::MAX,
            unesc_prefix(line@.skip(start as int)) == (match unesc_prefix(line@.skip(i as int)) {
                Some(q) => Some((out@ + q.0, (i - start) + q.1)),
                None => None::<(Seq<char>, int)>,
            }),
        decreases line@.len() - i,
    {
        let ghost s_here = line@.skip(i as int);
        let ghost out_pre = out@;
        if i == line.len() {
            proof {
                assert(s_here.len() == 0);
            }
            return None;
        }
        let c = line[i];
        proof {
            assert(s_here[0] == c);
            assert(s_here.len() == line@.len() - i);
        }
        if c == '"' {
            proof {
                assert(unesc_prefix(s_here) == Some((Seq::<char>::empty(), 1int)));
                assert(out@ + Seq::<char>::empty() =~= out@);
            }
            return Some((out, i + 1));
        } else if c == '\\' {
            if i + 1 == line.len() {
                proof {
                    assert(s_here.len() == 1);
                    assert(unesc_prefix(s_here) is None);
                }
                return None;
            }
            let c2 = line[i + 1];
            proof {
                assert(s_here[1] == c2);
            }
            match simple_unescape(c2) {
                Some(d) => {
                    out.push(d);
                    proof {
                        assert(s_here.skip(2) =~= line@.skip(i as int + 2));
                        match unesc_prefix(line@.skip(i as int + 2)) {
                            Some(q) => {
                                assert(unesc_prefix(s_here) == Some((seq![d] + q.0, 2 + q.1)));
                                assert(out_pre + (seq![d] + q.0) =~= out@ + q.0);
                            },
                            None => {
                                assert(unesc_prefix(s_here) is None);
                            },
                        }
                    }
                    i = i + 2;
                },
                None => {
                    if c2 == 'u' && line.len() - i > 5 {
                        let d2 = line[i + 2];
                        let d3 = line[i + 3];
                        proof {
                            assert(s_here[2] == d2);
                            assert(s_here[3] == d3);
                            assert(s_here[4] == line@[i as int + 4]);
                            assert(s_here[5] == line@[i as int + 5]);
                        }
                        if d2 == '0' && d3 == '0' {
                            let h = hex_value(line[i + 4]);
                            let l = hex_value(line[i + 5]);
                            match (h, l) {
                                (Some(hv), Some(lv)) => {
                                    let d = (hv * 16 + lv) as char;
                                    proof {
                                        assert(d == hex_pair_char(hv as int, lv as int));
                                    }
                                    out.push(d);
                                    proof {
                                        assert(s_here.skip(6) =~= line@.skip(i as int + 6));
                                        match unesc_prefix(line@.skip(i as int + 6)) {
                                            Some(q) => {
                                                assert(unesc_prefix(s_here) == Some(
                                                    (seq![d] + q.0, 6 + q.1),
                                                ));
                                                assert(out_pre + (seq![d] + q.0) =~= out@ + q.0);
                                            },
                                            None => {
                                                assert(unesc_prefix(s_here) is None);
                                            },
                                        }
                                    }
                                    i = i + 6;
                                },
                                _ => {
                                    proof {
                                        assert(unesc_prefix(s_here) is None);
                                    }
                                    return None;
                                },
                            }
                        } else {
                            proof {
                                assert(unesc_prefix(s_here) is None);
                            }
                            return None;
                        }
                    } else {
                        proof {
                            assert(unesc_prefix(s_here) is None);
                        }
                        return None;
                    }
                },
            }
        } else if (c as u32) >= 32 {
            out.push(c);
            proof {
                assert(s_here.skip(1) =~= line@.skip(i as int + 1));
                match unesc_prefix(line@.skip(i as int + 1)) {
                    Some(q) => {
                        assert(unesc_prefix(s_here) == Some((seq![c] + q.0, 1 + q.1)));
                        assert(out_pre + (seq![c] + q.0) =~= out@ + q.0);
                    },
                    None => {
                        assert(unesc_prefix(s_here) is None);
                    },
                }
            }
            i = i + 1;
        } else {
            proof {
                assert(unesc_prefix(s_here) is None);
            }
            return None;
        }
    }
}

impl Command {
    /// Parse one log line, without its terminating newline; `None` where
    /// the line does not record any command.
    pub fn from_line(line: &str) -> (r: Option<Command>)
        ensures
            match r {
                Some(c) => parse_cmd(line@) == Some(c@),
                None => parse_cmd(line@) is None,
            },
    {
        let chars = str_to_chars(line);
        proof {
            assert(chars.len() == chars@.len());
        }
        if match_at(&chars, 0, &set_open_vec()) {
            proof {
                assert(chars@.subrange(0, 13) == set_open());
            }
            match unescape_from(&chars, 13) {
                Some((kchars, kend)) => {
                    let ghost t = chars@.skip(13 + (kend - 13));
                    proof {
                        assert(t =~= chars@.skip(kend as int));
                    }
                    if match_at(&chars, kend, &set_mid_vec()) {
                        proof {
                            assert(t.subrange(0, 6) =~= chars@.subrange(
                                kend as int,
                                kend as int + 6,
                            ));
                            assert(t.skip(6) =~= chars@.skip(kend as int + 6));
                        }
                        match unescape_from(&chars, kend + 6) {
                            Some((vchars, vend)) => {
                                let ghost rest = t.skip(6).skip(vend - (kend + 6));
                                proof {
                                    assert(rest =~= chars@.skip(vend as int));
                                }
                                if chars.len() - vend == 2 {
                                    if chars[vend] == '}' && chars[vend + 1] == '}' {
                                        proof {
                                            assert(rest =~= set_close());
                                        }
                                        return Some(
                                            Command::Put(
                                                Pair::new(
                                                    chars_to_string(&kchars),
                                                    chars_to_string(&vchars),
                                                ),
                                            ),
                                        );
                                    } else {
                                        proof {
                                            if rest == set_close() {
                                                assert(rest[0] == '}' && rest[1] == '}');
                                                assert(chars@[vend as int] == rest[0]);
                                                assert(chars@[vend as int + 1] == rest[1]);
                                            }
                                        }
                                        return None;
                                    }
                                } else {
                                    proof {
                                        if rest == set_close() {
                                            assert(rest.len() == 2);
                                        }
                                    }
                                    return None;
                                }
                            },
                            None => {
                                return None;
                            },
                        }
                    } else {
                        proof {
                            if t.len() >= 6 && t.subrange(0, 6) == set_mid() {
                                assert(chars@.subrange(kend as int, kend as int + 6) =~= t.subrange(
                                    0,
                                    6,
                                ));
                            }
                        }
                        return None;
                    }
                },
                None => {
                    return None;
                },
            }
        } else if match_at(&chars, 0, &remove_open_vec()) {
            proof {
                assert(chars@.subrange(0, 11) == remove_open());
            }
            match unescape_from(&chars, 11) {
                Some((kchars, kend)) => {
                    let ghost rest = chars@.skip(11).skip(kend - 11);
                    proof {
                        assert(rest =~= chars@.skip(kend as int));
                    }
                    if chars.len() - kend == 1 {
                        if chars[kend] == '}' {
                            proof {
                                assert(rest =~= remove_close());
                            }
                            return Some(Command::Remove(chars_to_string(&kchars)));
                        } else {
                            proof {
                                if rest == remove_close() {
                                    assert(rest[0] == '}');
                                    assert(chars@[kend as int] == rest[0]);
                                }
                            }
                            return None;
                        }
                    } else {
                        proof {
                            if rest == remove_close() {
                                assert(rest.len() == 1);
                            }
                        }
                        return None;
                    }
                },
                None => {
                    return None;
                },
            }
        } else {
            return None;
        }
    }
}

/// Escaping and then decoding a string gives the string back: decoding
/// the escape of `s`, followed by a closing quote and anything further,
/// yields `s` and consumes exactly the escape and the quote.
pub proof fn lemma_unesc_esc(s: Seq<char>, rest: Seq<char>)
    ensures
        unesc_prefix(esc(s) + seq!['"'] + rest) == Some((s, esc(s).len() as int + 1)),
    decreases s.len(),
{
    let full = esc(s) + seq!['"'] + rest;
    if s.len() == 0 {
        assert(esc(s) =~= Seq::<char>::empty());
        assert(full =~= seq!['"'] + rest);
        assert(full[0] == '"');
        assert(Seq::<char>::empty() =~= s);
    } else {
        let c = s[0];
        let tail = s.skip(1);
        lemma_unesc_esc(tail, rest);
        let sub = esc(tail) + seq!['"'] + rest;
        assert(esc(s) =~= esc_char(c) + esc(tail));
        assert(full =~= esc_char(c) + sub);
        assert(seq![c] + tail =~= s);
        if c == '"' || c == '\\' || c == '\n' || c == '\r' || c == '\t' {
            assert(full[0] == '\\');
            assert(full[1] == esc_char(c)[1]);
            assert(simple_unesc(full[1]) == Some(c));
            assert(full.skip(2) =~= sub);
            assert(unesc_prefix(full) == Some((seq![c] + tail, 2 + (esc(tail).len() as int + 1))));
        } else if (c as u32) < 32 {
            let n = (c as u32) as int;
            let hi = n / 16;
            let lo = n % 16;
            assert(full[0] == '\\');
            assert(full[1] == 'u');
            assert(full[2] == '0');
            assert(full[3] == '0');
            assert(full[4] == hex_digit(hi));
            assert(full[5] == hex_digit(lo));
            assert(simple_unesc('u') is None);
            assert(0 <= hi < 2 && 0 <= lo < 16);
            assert(hex_val(hex_digit(hi)) == Some(hi));
            assert(hex_val(hex_digit(lo)) == Some(lo));
            assert(16 * hi + lo == n);
            assert(hex_pair_char(hi, lo) == c) by {
                assert(16 * hi + lo == n);
                assert((n as u8) as int == n);
                vstd::utf8::char_u32_cast(c, c as u32);
            }
            assert(full.skip(6) =~= sub);
            assert(unesc_prefix(full) == Some((seq![c] + tail, 6 + (esc(tail).len() as int + 1))));
        } else {
            assert(esc_char(c) =~= seq![c]);
            assert(full[0] == c);
            assert(full.skip(1) =~= sub);
            assert(unesc_prefix(full) == Some((seq![c] + tail, 1 + (esc(tail).len() as int + 1))));
        }
    }
}

/// Parsing an encoded record yields the command it records.
pub proof fn lemma_parse_encode_roundtrip(c: CommandView)
    ensures
        parse_cmd(encode_cmd(c)) == Some(c),
{
    let s = encode_cmd(c);
    match c {
        CommandView::Put { k, v } => {
            let rest1 = set_mid() + esc(v) + seq!['"'] + set_close();
            assert(s.len() >= 13);
            assert(s.subrange(0, 13) =~= set_open());
            assert(s.skip(13) =~= esc(k) + seq!['"'] + rest1);
            lemma_unesc_esc(k, rest1);
            let n1 = esc(k).len() as int + 1;
            let t = s.skip(13 + n1);
            assert(t =~= rest1);
            assert(t.subrange(0, 6) =~= set_mid());
            assert(t.skip(6) =~= esc(v) + seq!['"'] + set_close());
            lemma_unesc_esc(v, set_close());
            let n2 = esc(v).len() as int + 1;
            assert(t.skip(6).skip(n2) =~= set_close());
        },
        CommandView::Remove { k } => {
            assert(s.len() >= 11);
            assert(s.subrange(0, 11) =~= remove_open());
            assert(s.skip(11) =~= esc(k) + seq!['"'] + remove_close());
            lemma_unesc_esc(k, remove_close());
            let n1 = esc(k).len() as int + 1;
            assert(s.skip(11).skip(n1) =~= remove_close());
            if s.len() >= 13 && s.subrange(0, 13) == set_open() {
                assert(s.subrange(0, 13)[2] == 'S');
                assert(s[2] == remove_open()[2]);
                assert(false);
            }
        },
    }
}

/// The escape of a string never holds a newline.
pub proof fn lemma_esc_free_of_newline(s: Seq<char>)
    ensures
        !esc(s).contains('\n'),
    decreases s.len(),
{
    if s.len() == 0 {
    } else {
        let c = s[0];
        lemma_esc_free_of_newline(s.skip(1));
        assert forall|i: int| 0 <= i < esc(s).len() implies esc(s)[i] != '\n' by {
            assert(esc(s) == esc_char(c) + esc(s.skip(1)));
            if i < esc_char(c).len() {
                assert(esc(s)[i] == esc_char(c)[i]);
                assert(forall|d: int| hex_digit(d) != '\n');
            } else {
                assert(esc(s)[i] == esc(s.skip(1))[i - esc_char(c).len()]);
                assert(!esc(s.skip(1)).contains('\n'));
            }
        }
        if esc(s).contains('\n') {
            let i = choose|i: int| 0 <= i < esc(s).len() && esc(s)[i] == '\n';
            assert(false);
        }
    }
}

/// An encoded log line never holds a newline, so one line frames one
/// record.
pub proof fn lemma_encode_line_free_of_newline(c: CommandView)
    ensures
        !encode_cmd(c).contains('\n'),
{
    let s = encode_cmd(c);
    match c {
        CommandView::Put { k, v } => {
            lemma_esc_free_of_newline(k);
            lemma_esc_free_of_newline(v);
            assert forall|i: int| 0 <= i < s.len() implies s[i] != '\n' by {
                let a = set_open();
                let b = esc(k);
                let q = seq!['"'];
                let m = set_mid();
                let d = esc(v);
                let e = set_close();
                assert(s == a + b + q + m + d + q + e);
                if i < a.len() {
                    assert(s[i] == a[i]);
                } else if i < a.len() + b.len() {
                    assert(s[i] == b[i - a.len()]);
                    assert(!b.contains('\n'));
                } else if i < a.len() + b.len() + 1 {
                    assert(s[i] == '"');
                } else if i < a.len() + b.len() + 1 + m.len() {
                    assert(s[i] == m[i - (a.len() + b.len() + 1)]);
                } else if i < a.len() + b.len() + 1 + m.len() + d.len() {
                    assert(s[i] == d[i - (a.len() + b.len() + 1 + m.len())]);
                    assert(!d.contains('\n'));
                } else if i < a.len() + b.len() + 1 + m.len() + d.len() + 1 {
                    assert(s[i] == '"');
                } else {
                    assert(s[i] == e[i - (a.len() + b.len() + 1 + m.len() + d.len() + 1)]);
                }
            }
            if s.contains('\n') {
                let i = choose|i: int| 0 <= i < s.len() && s[i] == '\n';
                assert(false);
            }
        },
        CommandView::Remove { k } => {
            lemma_esc_free_of_newline(k);
            assert forall|i: int| 0 <= i < s.len() implies s[i] != '\n' by {
                let a = remove_open();
                let b = esc(k);
                assert(s == a + b + seq!['"'] + remove_close());
                if i < a.len() {
                    assert(s[i] == a[i]);
                } else if i < a.len() + b.len() {
                    assert(s[i] == b[i - a.len()]);
                    assert(!b.contains('\n'));
                } else if i < a.len() + b.len() + 1 {
                    assert(s[i] == '"');
                } else {
                    assert(s[i] == remove_close()[i - (a.len() + b.len() + 1)]);
                }
            }
            if s.contains('\n') {
                let i = choose|i: int| 0 <= i < s.len() && s[i] == '\n';
                assert(false);
            }
        },
    }
}

} // verus!
