//! Protocol messages: the quadruple (prefix, command, arguments, trailing argument),
//! its wire form, and the parser of one protocol line.
use vstd::prelude::*;
use crate::util::{chars_of, push_char, string_of};

verus! {

/// Longest line payload accepted or emitted, terminator excluded.
pub const MAX_LINE: usize = 510;

/// Most middle arguments a message carries.
pub const MAX_ARGS: usize = 14;

/// The mathematical content of a message.
pub struct MsgView {
    pub prefix: Option<Seq<char>>,
    pub command: Seq<char>,
    pub args: Seq<Seq<char>>,
    pub suffix: Option<Seq<char>>,
}

/// A protocol message.
#[derive(PartialEq, Debug)]
pub struct IRCMessage {
    pub prefix: Option<String>,
    pub command: String,
    pub args: Vec<String>,
    pub suffix: Option<String>,
}

pub open spec fn opt_view(o: Option<String>) -> Option<Seq<char>> {
    match o {
        Some(s) => Some(s@),
        None => None,
    }
}

pub open spec fn strings_view(v: Seq<String>) -> Seq<Seq<char>> {
    v.map_values(|s: String| s@)
}

impl View for IRCMessage {
    type V = MsgView;

    open spec fn view(&self) -> MsgView {
        MsgView {
            prefix: opt_view(self.prefix),
            command: self.command@,
            args: strings_view(self.args@),
            suffix: opt_view(self.suffix),
        }
    }
}

/// Words joined by single spaces.
pub open spec fn join_words(ws: Seq<Seq<char>>) -> Seq<char>
    decreases ws.len(),
{
    if ws.len() == 0 {
        Seq::empty()
    } else if ws.len() == 1 {
        ws[0]
    } else {
        join_words(ws.drop_last()) + seq![' '] + ws.last()
    }
}

/// The wire form of a message: `:prefix ` if present, the command, ` arg` for each
/// argument, and ` :trailing` if present.
pub open spec fn serialise(m: MsgView) -> Seq<char> {
    (match m.prefix {
        Some(p) => seq![':'] + p + seq![' '],
        None => Seq::empty(),
    }) + join_words(seq![m.command] + m.args) + (match m.suffix {
        Some(t) => seq![' ', ':'] + t,
        None => Seq::empty(),
    })
}

/// The arguments from the first on, joined by spaces, and the trailing argument after
/// them (after a space if the joined arguments are not empty).
pub open spec fn fuse(args: Seq<Seq<char>>, suffix: Option<Seq<char>>) -> Seq<char> {
    let j = join_words(args);
    match suffix {
        Some(t) => if j.len() > 0 {
            j + seq![' '] + t
        } else {
            t
        },
        None => j,
    }
}

/// Why a line is not a message.
#[derive(PartialEq, Eq, Structural, Clone, Copy, Debug)]
pub enum ParseError {
    /// The line is empty.
    Empty,
    /// The line is longer than the payload limit, in bytes of UTF-8.
    TooLong,
    /// The line holds a NUL, CR or LF.
    ForbiddenChar,
    /// The line starts with `:` and an empty prefix.
    BadPrefix,
    /// The line has no command.
    NoCommand,
}

pub open spec fn is_forbidden(c: char) -> bool {
    c == '\0' || c == '\r' || c == '\n'
}

pub open spec fn has_forbidden(s: Seq<char>) -> bool {
    exists|i: int| 0 <= i < s.len() && is_forbidden(#[trigger] s[i])
}

/// `k` is the first position of `c` in `s`.
pub open spec fn is_first(s: Seq<char>, c: char, k: int) -> bool {
    &&& 0 <= k < s.len()
    &&& s[k] == c
    &&& forall|j: int| 0 <= j < k ==> s[j] != c
}

pub open spec fn first_of(s: Seq<char>, c: char) -> Option<int> {
    if exists|k: int| is_first(s, c, k) {
        Some(choose|k: int| is_first(s, c, k))
    } else {
        None
    }
}

/// `s` holds `" :"` at `k`.
pub open spec fn sep_at(s: Seq<char>, k: int) -> bool {
    0 <= k && k + 1 < s.len() && s[k] == ' ' && s[k + 1] == ':'
}

/// `k` is the first position of `" :"` in `s`.
pub open spec fn is_first_sep(s: Seq<char>, k: int) -> bool {
    sep_at(s, k) && forall|j: int| 0 <= j < k ==> !sep_at(s, j)
}

pub open spec fn first_sep(s: Seq<char>) -> Option<int> {
    if exists|k: int| is_first_sep(s, k) {
        Some(choose|k: int| is_first_sep(s, k))
    } else {
        None
    }
}

/// Splitting on spaces, as a left-to-right scan: the words completed so far and the
/// word being read.
pub open spec fn scan(s: Seq<char>) -> (Seq<Seq<char>>, Seq<char>)
    decreases s.len(),
{
    if s.len() == 0 {
        (Seq::empty(), Seq::empty())
    } else {
        let (ws, cur) = scan(s.drop_last());
        if s.last() == ' ' {
            if cur.len() > 0 {
                (ws.push(cur), Seq::empty())
            } else {
                (ws, Seq::empty())
            }
        } else {
            (ws, cur.push(s.last()))
        }
    }
}

/// The non-empty words of `s` between single spaces.
pub open spec fn words(s: Seq<char>) -> Seq<Seq<char>> {
    let (ws, cur) = scan(s);
    if cur.len() > 0 {
        ws.push(cur)
    } else {
        ws
    }
}

/// The message made of the words of a line: the first is the command, up to fourteen
/// more are the arguments, and any beyond are joined by spaces and put before the
/// trailing argument.
pub open spec fn assemble(
    prefix: Option<Seq<char>>,
    ws: Seq<Seq<char>>,
    suffix: Option<Seq<char>>,
) -> Result<MsgView, ParseError> {
    if ws.len() == 0 {
        Err(ParseError::NoCommand)
    } else if ws.len() <= 15 {
        Ok(MsgView { prefix, command: ws[0], args: ws.subrange(1, ws.len() as int), suffix })
    } else {
        let extra = join_words(ws.subrange(15, ws.len() as int));
        Ok(
            MsgView {
                prefix,
                command: ws[0],
                args: ws.subrange(1, 15),
                suffix: match suffix {
                    Some(t) => Some(extra + seq![' '] + t),
                    None => Some(extra),
                },
            },
        )
    }
}

/// What follows the prefix: the trailing argument starts at the first `" :"`.
pub open spec fn parse_rest(prefix: Option<Seq<char>>, rest: Seq<char>) -> Result<
    MsgView,
    ParseError,
> {
    if rest.len() == 0 || rest[0] == ':' {
        Err(ParseError::NoCommand)
    } else {
        match first_sep(rest) {
            Some(k) => if k == 0 {
                Err(ParseError::NoCommand)
            } else {
                assemble(
                    prefix,
                    words(rest.take(k)),
                    Some(rest.subrange(k + 2, rest.len() as int)),
                )
            },
            None => assemble(prefix, words(rest), None),
        }
    }
}

/// The message that a line holds, or why it holds none.
pub open spec fn parse_spec(s: Seq<char>) -> Result<MsgView, ParseError> {
    if s.len() == 0 {
        Err(ParseError::Empty)
    } else if vstd::utf8::encode_utf8(s).len() > MAX_LINE {
        Err(ParseError::TooLong)
    } else if has_forbidden(s) {
        Err(ParseError::ForbiddenChar)
    } else if s[0] == ':' {
        match first_of(s, ' ') {
            None => Err(ParseError::NoCommand),
            Some(sp) => if sp == 1 {
                Err(ParseError::BadPrefix)
            } else {
                parse_rest(Some(s.subrange(1, sp)), s.subrange(sp + 1, s.len() as int))
            },
        }
    } else {
        parse_rest(None, s)
    }
}

pub open spec fn parse_view(r: Result<IRCMessage, ParseError>) -> Result<MsgView, ParseError> {
    match r {
        Ok(m) => Ok(m@),
        Err(e) => Err(e),
    }
}

/// The number of bytes of `s` in UTF-8.
pub open spec fn byte_len(s: Seq<char>) -> int {
    vstd::utf8::encode_utf8(s).len() as int
}

/// A length, capped at `usize::MAX`.
pub open spec fn sat_len(n: int) -> usize {
    if n <= usize::MAX {
        n as usize
    } else {
        usize::MAX
    }
}

/// The UTF-8 encoding of a concatenation is the concatenation of the encodings.
pub proof fn lemma_encode_concat(a: Seq<char>, b: Seq<char>)
    ensures
        vstd::utf8::encode_utf8(a + b) == vstd::utf8::encode_utf8(a) + vstd::utf8::encode_utf8(b),
    decreases a.len(),
{
    if a.len() == 0 {
        assert(a + b =~= b);
        assert(vstd::utf8::encode_utf8(a) =~= Seq::<u8>::empty());
        assert(Seq::<u8>::empty() + vstd::utf8::encode_utf8(b) =~= vstd::utf8::encode_utf8(b));
    } else {
        assert((a + b).drop_first() =~= a.drop_first() + b);
        assert((a + b)[0] == a[0]);
        lemma_encode_concat(a.drop_first(), b);
        let e = vstd::utf8::encode_scalar(a[0] as u32);
        assert(e + (vstd::utf8::encode_utf8(a.drop_first()) + vstd::utf8::encode_utf8(b)) =~= (e
            + vstd::utf8::encode_utf8(a.drop_first())) + vstd::utf8::encode_utf8(b));
    }
}

/// Byte length of a concatenation.
pub proof fn lemma_byte_len_concat(a: Seq<char>, b: Seq<char>)
    ensures
        byte_len(a + b) == byte_len(a) + byte_len(b),
{
    lemma_encode_concat(a, b);
}

/// Byte length of an ASCII character sequence: one byte per character.
pub proof fn lemma_byte_len_single(c: char)
    ensures
        byte_len(seq![c]) == vstd::utf8::encode_scalar(c as u32).len(),
        (c as u32) < 0x80 ==> byte_len(seq![c]) == 1,
{
    assert(seq![c].drop_first() =~= Seq::<char>::empty());
    assert(vstd::utf8::encode_utf8(Seq::<char>::empty()) =~= Seq::<u8>::empty());
    assert(vstd::utf8::encode_scalar(c as u32) + Seq::<u8>::empty() =~= vstd::utf8::encode_scalar(c as u32));
}

/// The number of bytes of one character in UTF-8.
fn char_utf8_len(c: char) -> (r: usize)
    ensures
        r == byte_len(seq![c]),
        1 <= r <= 4,
{
    proof {
        lemma_byte_len_single(c);
    }
    let v = c as u32;
    if v <= 0x7F {
        1
    } else if v <= 0x7FF {
        2
    } else if v <= 0xFFFF && !(0xD800 <= v && v <= 0xDFFF) {
        3
    } else {
        4
    }
}

/// The number of bytes of `s` in UTF-8 (at most `usize::MAX`).
pub fn utf8_len(s: &str) -> (r: usize)
    ensures
        r == sat_len(byte_len(s@)),
{
    let v = chars_of(s);
    let mut acc: usize = 0;
    let mut i: usize = 0;
    assert(v@.take(0) =~= Seq::<char>::empty());
    assert(vstd::utf8::encode_utf8(Seq::<char>::empty()) =~= Seq::<u8>::empty());
    while i < v.len()
        invariant
            i <= v.len(),
            v@ == s@,
            acc == sat_len(byte_len(v@.take(i as int))),
        decreases v.len() - i,
    {
        let w = char_utf8_len(v[i]);
        proof {
            assert(v@.take(i as int + 1) =~= v@.take(i as int) + seq![v@[i as int]]);
            lemma_byte_len_concat(v@.take(i as int), seq![v@[i as int]]);
        }
        if acc > usize::MAX - w {
            acc = usize::MAX;
        } else {
            acc = acc + w;
        }
        i = i + 1;
    }
    assert(v@.take(v.len() as int) =~= v@);
    acc
}

/// A copy of a string list.
pub fn copy_strings(v: &Vec<String>) -> (r: Vec<String>)
    ensures
        r@ == v@,
{
    let mut out: Vec<String> = Vec::new();
    let mut i: usize = 0;
    while i < v.len()
        invariant
            i <= v.len(),
            out@ == v@.take(i as int),
        decreases v.len() - i,
    {
        out.push(v[i].clone());
        assert(v@.take(i as int + 1) =~= v@.take(i as int).push(v@[i as int]));
        i = i + 1;
    }
    assert(v@.take(v.len() as int) =~= v@);
    out
}

pub fn copy_opt(o: &Option<String>) -> (r: Option<String>)
    ensures
        r == *o,
{
    match o {
        Some(s) => Some(s.clone()),
        None => None,
    }
}

fn sub_vec(v: &Vec<char>, a: usize, b: usize) -> (r: Vec<char>)
    requires
        a <= b <= v.len(),
    ensures
        r@ == v@.subrange(a as int, b as int),
{
    let mut out: Vec<char> = Vec::new();
    let mut i: usize = a;
    while i < b
        invariant
            a <= i <= b <= v.len(),
            out@ == v@.subrange(a as int, i as int),
        decreases b - i,
    {
        out.push(v[i]);
        assert(v@.subrange(a as int, i as int + 1) =~= v@.subrange(a as int, i as int).push(
            v@[i as int],
        ));
        i = i + 1;
    }
    out
}

fn sub_string(v: &Vec<char>, a: usize, b: usize) -> (r: String)
    requires
        a <= b <= v.len(),
    ensures
        r@ == v@.subrange(a as int, b as int),
{
    let w = sub_vec(v, a, b);
    string_of(w.as_slice())
}

fn find_char(v: &Vec<char>, c: char) -> (r: Option<usize>)
    ensures
        r matches Some(k) ==> is_first(v@, c, k as int),
        r is None ==> forall|j: int| 0 <= j < v.len() ==> v@[j] != c,
{
    let mut i: usize = 0;
    while i < v.len()
        invariant
            i <= v.len(),
            forall|j: int| 0 <= j < i ==> v@[j] != c,
        decreases v.len() - i,
    {
        if v[i] == c {
            return Some(i);
        }
        i = i + 1;
    }
    None
}

fn find_sep(v: &Vec<char>) -> (r: Option<usize>)
    ensures
        r matches Some(k) ==> is_first_sep(v@, k as int),
        r is None ==> forall|j: int| !sep_at(v@, j),
{
    let mut i: usize = 0;
    while i < v.len()
        invariant
            i <= v.len(),
            forall|j: int| 0 <= j < i ==> !sep_at(v@, j),
        decreases v.len() - i,
    {
        if i + 1 < v.len() && v[i] == ' ' && v[i + 1] == ':' {
            return Some(i);
        }
        i = i + 1;
    }
    None
}

proof fn lemma_first_of(s: Seq<char>, c: char, k: int)
    requires
        is_first(s, c, k),
    ensures
        first_of(s, c) == Some(k),
{
    let k2 = choose|k2: int| is_first(s, c, k2);
    assert(is_first(s, c, k2));
    if k2 < k {
        assert(s[k2] != c);
    }
    if k < k2 {
        assert(s[k] != c);
    }
}

proof fn lemma_first_sep(s: Seq<char>, k: int)
    requires
        is_first_sep(s, k),
    ensures
        first_sep(s) == Some(k),
{
    let k2 = choose|k2: int| is_first_sep(s, k2);
    assert(is_first_sep(s, k2));
    if k2 < k {
        assert(!sep_at(s, k2));
    }
    if k < k2 {
        assert(!sep_at(s, k));
    }
}

fn split_words(b: &Vec<char>) -> (r: Vec<String>)
    ensures
        strings_view(r@) == words(b@),
{
    let mut ws: Vec<String> = Vec::new();
    let mut cur: Vec<char> = Vec::new();
    let mut i: usize = 0;
    while i < b.len()
        invariant
            i <= b.len(),
            scan(b@.take(i as int)) == (strings_view(ws@), cur@),
        decreases b.len() - i,
    {
        let c = b[i];
        assert(b@.take(i as int + 1).drop_last() =~= b@.take(i as int));
        assert(b@.take(i as int + 1).last() == c);
        if c == ' ' {
            if cur.len() > 0 {
                let w = string_of(cur.as_slice());
                let ghost old_ws = ws@;
                ws.push(w);
                assert(strings_view(ws@) =~= strings_view(old_ws).push(cur@));
                cur = Vec::new();
            }
        } else {
            cur.push(c);
        }
        i = i + 1;
    }
    assert(b@.take(b.len() as int) =~= b@);
    if cur.len() > 0 {
        let w = string_of(cur.as_slice());
        let ghost old_ws = ws@;
        ws.push(w);
        assert(strings_view(ws@) =~= strings_view(old_ws).push(cur@));
    }
    ws
}

/// Joins `ws[from..]` with single spaces.
fn join_from(ws: &Vec<String>, from: usize) -> (r: String)
    requires
        from < ws.len(),
    ensures
        r@ == join_words(strings_view(ws@).subrange(from as int, ws.len() as int)),
{
    let ghost wv = strings_view(ws@);
    let mut out = ws[from].clone();
    let mut i: usize = from + 1;
    assert(wv.subrange(from as int, i as int) =~= seq![wv[from as int]]);
    while i < ws.len()
        invariant
            from < i <= ws.len(),
            wv == strings_view(ws@),
            out@ == join_words(wv.subrange(from as int, i as int)),
        decreases ws.len() - i,
    {
        let ghost prev = wv.subrange(from as int, i as int);
        let ghost next = wv.subrange(from as int, i as int + 1);
        assert(next.drop_last() =~= prev);
        assert(next.last() == ws@[i as int]@);
        push_char(&mut out, ' ');
        out.append(ws[i].as_str());
        i = i + 1;
    }
    out
}

fn strings_range(ws: &Vec<String>, a: usize, b: usize) -> (r: Vec<String>)
    requires
        a <= b <= ws.len(),
    ensures
        strings_view(r@) == strings_view(ws@).subrange(a as int, b as int),
{
    let mut out: Vec<String> = Vec::new();
    let mut i: usize = a;
    while i < b
        invariant
            a <= i <= b <= ws.len(),
            out@ == ws@.subrange(a as int, i as int),
        decreases b - i,
    {
        out.push(ws[i].clone());
        assert(ws@.subrange(a as int, i as int + 1) =~= ws@.subrange(a as int, i as int).push(
            ws@[i as int],
        ));
        i = i + 1;
    }
    assert(strings_view(out@) =~= strings_view(ws@).subrange(a as int, b as int));
    out
}

fn assemble_exec(prefix: Option<String>, ws: Vec<String>, suffix: Option<String>) -> (r: Result<
    IRCMessage,
    ParseError,
>)
    ensures
        parse_view(r) == assemble(opt_view(prefix), strings_view(ws@), opt_view(suffix)),
{
    let n = ws.len();
    if n == 0 {
        return Err(ParseError::NoCommand);
    }
    let command = ws[0].clone();
    if n <= 15 {
        let args = strings_range(&ws, 1, n);
        let m = IRCMessage { prefix, command, args, suffix };
        return Ok(m);
    }
    let args = strings_range(&ws, 1, 15);
    let mut extra = join_from(&ws, 15);
    let ghost e = extra@;
    let new_suffix = match suffix {
        Some(t) => {
            push_char(&mut extra, ' ');
            extra.append(t.as_str());
            assert(extra@ =~= e + seq![' '] + t@);
            Some(extra)
        },
        None => Some(extra),
    };
    let m = IRCMessage { prefix, command, args, suffix: new_suffix };
    assert(m@.suffix == (match opt_view(suffix) {
        Some(t) => Some(e + seq![' '] + t),
        None => Some(e),
    }));
    Ok(m)
}

impl IRCMessage {
    /// A copy of this message.
    pub fn copy(&self) -> (r: IRCMessage)
        ensures
            r@ == self@,
    {
        IRCMessage {
            prefix: copy_opt(&self.prefix),
            command: self.command.clone(),
            args: copy_strings(&self.args),
            suffix: copy_opt(&self.suffix),
        }
    }

    /// Generates the line that is sent over the network (without its terminator).
    pub fn to_protocol(&self) -> (r: String)
        ensures
            r@ == serialise(self@),
    {
        let ghost m = self@;
        let mut out = String::new();
        if let Some(p) = &self.prefix {
            push_char(&mut out, ':');
            out.append(p.as_str());
            push_char(&mut out, ' ');
        }
        let ghost pre = out@;
        out.append(self.command.as_str());
        let ghost ws = seq![m.command] + m.args;
        assert(ws.take(1) =~= seq![m.command]);
        let mut i: usize = 0;
        while i < self.args.len()
            invariant
                i <= self.args.len(),
                m == self@,
                ws == seq![m.command] + m.args,
                out@ == pre + join_words(ws.take(i as int + 1)),
            decreases self.args.len() - i,
        {
            assert(ws.take(i as int + 2).drop_last() =~= ws.take(i as int + 1));
            assert(ws.take(i as int + 2).last() == self.args@[i as int]@);
            push_char(&mut out, ' ');
            out.append(self.args[i].as_str());
            i = i + 1;
        }
        assert(ws.take(self.args.len() as int + 1) =~= ws);
        if let Some(t) = &self.suffix {
            push_char(&mut out, ' ');
            push_char(&mut out, ':');
            out.append(t.as_str());
        }
        assert(out@ =~= serialise(m));
        out
    }

    /// The length in bytes of the message in wire form, terminator excluded (at most
    /// `usize::MAX`).
    pub fn protocol_len(&self) -> (r: usize)
        ensures
            r == sat_len(byte_len(serialise(self@))),
    {
        let s = self.to_protocol();
        utf8_len(s.as_str())
    }

    /// The arguments taken as `needed` mandatory and `optional` optional parameters,
    /// the trailing argument counting as one more argument: `None` if fewer than `needed`
    /// are available; otherwise the first `min(available, needed + optional)` of them,
    /// the last of which holds every remaining argument joined by spaces.
    pub fn as_nparams(&self, needed: usize, optional: usize) -> (r: Option<Vec<String>>)
        requires
            needed + optional <= usize::MAX,
        ensures
            ({
                let m = self@;
                let available = m.args.len() + if m.suffix is Some {
                    1int
                } else {
                    0int
                };
                let taking = if available < needed + optional {
                    available
                } else {
                    needed + optional
                };
                match r {
                    None => available < needed,
                    Some(v) => available >= needed && v@.len() == taking && (taking > 0
                        ==> strings_view(v@) == m.args.take(taking - 1).push(
                        fuse(m.args.skip(taking - 1), m.suffix),
                    )),
                }
            }),
    {
        let ghost m = self@;
        let available: u128 = if self.suffix.is_some() {
            self.args.len() as u128 + 1
        } else {
            self.args.len() as u128
        };
        let taking: usize = if available < (needed + optional) as u128 {
            available as usize
        } else {
            needed + optional
        };
        if available < needed as u128 {
            return None;
        }
        let mut params: Vec<String> = Vec::new();
        if taking == 0 {
            return Some(params);
        }
        let mut i: usize = 0;
        while i < taking - 1
            invariant
                i <= taking - 1,
                taking <= available,
                m == self@,
                available == m.args.len() + if m.suffix is Some {
                    1int
                } else {
                    0int
                },
                strings_view(params@) == m.args.take(i as int),
            decreases taking - 1 - i,
        {
            let ghost before = params@;
            params.push(self.args[i].clone());
            assert(strings_view(params@) =~= strings_view(before).push(self.args@[i as int]@));
            assert(m.args.take(i as int + 1) =~= m.args.take(i as int).push(m.args[i as int]));
            i = i + 1;
        }
        let k = taking - 1;
        let fused = self.fuse_from(k);
        let ghost before = params@;
        params.push(fused);
        assert(strings_view(params@) =~= strings_view(before).push(fused@));
        Some(params)
    }

    fn fuse_from(&self, k: usize) -> (r: String)
        requires
            k <= self.args.len(),
        ensures
            r@ == fuse(self@.args.skip(k as int), self@.suffix),
    {
        let ghost rest = self@.args.skip(k as int);
        let mut out = if k < self.args.len() {
            let j = join_from(&self.args, k);
            assert(strings_view(self.args@).subrange(k as int, self.args.len() as int) =~= rest);
            j
        } else {
            assert(rest.len() == 0);
            String::new()
        };
        assert(out@ == join_words(rest));
        if let Some(t) = &self.suffix {
            if out.as_str().unicode_len() > 0 {
                push_char(&mut out, ' ');
                out.append(t.as_str());
            } else {
                out = t.clone();
            }
        }
        out
    }
}

fn has_forbidden_exec(v: &Vec<char>) -> (r: bool)
    ensures
        r == has_forbidden(v@),
{
    let mut i: usize = 0;
    while i < v.len()
        invariant
            i <= v.len(),
            forall|j: int| 0 <= j < i ==> !is_forbidden(#[trigger] v@[j]),
        decreases v.len() - i,
    {
        let c = v[i];
        if c == '\0' || c == '\r' || c == '\n' {
            assert(is_forbidden(v@[i as int]));
            return true;
        }
        i = i + 1;
    }
    false
}

fn parse_rest_exec(prefix: Option<String>, rest: &Vec<char>) -> (r: Result<IRCMessage, ParseError>)
    ensures
        parse_view(r) == parse_rest(opt_view(prefix), rest@),
{
    if rest.len() == 0 || rest[0] == ':' {
        return Err(ParseError::NoCommand);
    }
    match find_sep(rest) {
        Some(k) => {
            proof {
                lemma_first_sep(rest@, k as int);
            }
            if k == 0 {
                return Err(ParseError::NoCommand);
            }
            let body = sub_vec(rest, 0, k);
            assert(body@ =~= rest@.take(k as int));
            let suffix = sub_string(rest, k + 2, rest.len());
            let ws = split_words(&body);
            assemble_exec(prefix, ws, Some(suffix))
        },
        None => {
            assert(!exists|k: int| is_first_sep(rest@, k));
            let ws = split_words(rest);
            assemble_exec(prefix, ws, None)
        },
    }
}

/// The line written to the network for a message: its wire form and the CR LF
/// terminator.
pub fn write_message(msg: &IRCMessage) -> (r: String)
    ensures
        r@ == serialise(msg@) + seq!['\r', '\n'],
{
    let mut s = msg.to_protocol();
    push_char(&mut s, '\r');
    push_char(&mut s, '\n');
    s
}

/// A character takes one to four bytes in UTF-8.
pub proof fn lemma_utf8_len_bounds(s: Seq<char>)
    ensures
        s.len() <= vstd::utf8::encode_utf8(s).len() <= 4 * s.len(),
    decreases s.len(),
{
    if s.len() > 0 {
        lemma_utf8_len_bounds(s.drop_first());
        let e = vstd::utf8::encode_scalar(s[0] as u32);
        assert(1 <= e.len() <= 4);
    }
}

/// Parses one protocol line (without its terminator).
pub fn parse(line: &str) -> (r: Result<IRCMessage, ParseError>)
    ensures
        parse_view(r) == parse_spec(line@),
{
    let v = chars_of(line);
    if v.len() == 0 {
        return Err(ParseError::Empty);
    }
    proof {
        lemma_utf8_len_bounds(line@);
    }
    if v.len() > MAX_LINE {
        return Err(ParseError::TooLong);
    }
    if line.len() > MAX_LINE {
        return Err(ParseError::TooLong);
    }
    if has_forbidden_exec(&v) {
        return Err(ParseError::ForbiddenChar);
    }
    if v[0] == ':' {
        match find_char(&v, ' ') {
            None => {
                assert(!exists|k: int| is_first(v@, ' ', k));
                Err(ParseError::NoCommand)
            },
            Some(sp) => {
                proof {
                    lemma_first_of(v@, ' ', sp as int);
                }
                if sp == 1 {
                    return Err(ParseError::BadPrefix);
                }
                let prefix = sub_string(&v, 1, sp);
                let rest = sub_vec(&v, sp + 1, v.len());
                parse_rest_exec(Some(prefix), &rest)
            },
        }
    } else {
        parse_rest_exec(None, &v)
    }
}


/// A middle word of a message: non-empty, without spaces or forbidden characters,
/// and not starting with `:`.
pub open spec fn is_word(w: Seq<char>) -> bool {
    &&& w.len() > 0
    &&& w[0] != ':'
    &&& forall|i: int| 0 <= i < w.len() ==> #[trigger] w[i] != ' ' && !is_forbidden(w[i])
}

/// The parts of a message can be told apart on the wire: a non-empty prefix without
/// spaces, a command and arguments that are words, a trailing argument without forbidden
/// characters, and a wire form within the payload limit.
pub open spec fn parts_ok(m: MsgView) -> bool {
    &&& (m.prefix matches Some(p) ==> p.len() > 0 && forall|i: int|
        0 <= i < p.len() ==> #[trigger] p[i] != ' ' && !is_forbidden(p[i]))
    &&& is_word(m.command)
    &&& forall|i: int| 0 <= i < m.args.len() ==> is_word(#[trigger] m.args[i])
    &&& (m.suffix matches Some(t) ==> !has_forbidden(t))
    &&& vstd::utf8::encode_utf8(serialise(m)).len() <= MAX_LINE
}

/// A well-formed message: its parts can be told apart, and it has at most fourteen
/// middle arguments.
pub open spec fn well_formed(m: MsgView) -> bool {
    parts_ok(m) && m.args.len() <= MAX_ARGS
}

proof fn lemma_scan_word(x: Seq<char>, t: Seq<char>)
    requires
        forall|i: int| 0 <= i < t.len() ==> #[trigger] t[i] != ' ',
    ensures
        scan(x + t) == (scan(x).0, scan(x).1 + t),
    decreases t.len(),
{
    if t.len() == 0 {
        assert(x + t =~= x);
        assert(scan(x).1 + t =~= scan(x).1);
    } else {
        let u = x + t;
        assert(u.drop_last() =~= x + t.drop_last());
        assert(u.last() == t.last());
        lemma_scan_word(x, t.drop_last());
        assert((scan(x).1 + t.drop_last()).push(t.last()) =~= scan(x).1 + t);
    }
}

proof fn lemma_scan_join(ws: Seq<Seq<char>>)
    requires
        ws.len() >= 1,
        forall|i: int| 0 <= i < ws.len() ==> is_word(#[trigger] ws[i]),
    ensures
        scan(join_words(ws)) == (ws.drop_last(), ws.last()),
        words(join_words(ws)) == ws,
    decreases ws.len(),
{
    if ws.len() == 1 {
        lemma_scan_word(Seq::empty(), ws[0]);
        assert(Seq::<char>::empty() + ws[0] =~= ws[0]);
        assert(Seq::<char>::empty() + ws[0] =~= ws[0]);
        assert(ws.drop_last() =~= Seq::<Seq<char>>::empty());
    } else {
        let init = ws.drop_last();
        assert forall|i: int| 0 <= i < init.len() implies is_word(#[trigger] init[i]) by {
            assert(init[i] == ws[i]);
        }
        lemma_scan_join(init);
        let y = join_words(init);
        let z = y + seq![' '];
        assert(z.drop_last() =~= y);
        assert(init.last() == ws[ws.len() - 2]);
        assert(init.drop_last().push(init.last()) =~= init);
        assert(scan(z) == (init, Seq::<char>::empty()));
        assert(is_word(ws[ws.len() - 1]));
        lemma_scan_word(z, ws.last());
        assert(Seq::<char>::empty() + ws.last() =~= ws.last());
    }
    assert(ws.drop_last().push(ws.last()) =~= ws);
}

proof fn lemma_join_shape(ws: Seq<Seq<char>>)
    requires
        ws.len() >= 1,
        forall|i: int| 0 <= i < ws.len() ==> is_word(#[trigger] ws[i]),
    ensures
        join_words(ws).len() > 0,
        join_words(ws)[0] == ws[0][0],
        join_words(ws).last() != ' ',
        forall|j: int| 0 <= j < join_words(ws).len() ==> !is_forbidden(#[trigger] join_words(ws)[j]),
        forall|j: int| !sep_at(join_words(ws), j),
    decreases ws.len(),
{
    let x = join_words(ws);
    if ws.len() == 1 {
        assert(is_word(ws[0]));
        assert(x[x.len() - 1] != ' ');
        assert forall|j: int| !sep_at(x, j) by {
            if 0 <= j < x.len() {
                assert(x[j] != ' ');
            }
        }
    } else {
        let init = ws.drop_last();
        assert forall|i: int| 0 <= i < init.len() implies is_word(#[trigger] init[i]) by {
            assert(init[i] == ws[i]);
        }
        lemma_join_shape(init);
        let y = join_words(init);
        let w = ws.last();
        assert(is_word(ws[ws.len() - 1]));
        assert(x == y + seq![' '] + w);
        assert(x[0] == y[0]);
        assert(init[0] == ws[0]);
        assert(x.last() == w[w.len() - 1]);
        assert forall|j: int| 0 <= j < x.len() implies !is_forbidden(#[trigger] x[j]) by {
            if j < y.len() {
                assert(x[j] == y[j]);
            } else if j > y.len() {
                assert(x[j] == w[j - y.len() - 1]);
            }
        }
        assert forall|j: int| !sep_at(x, j) by {
            if 0 <= j && j + 1 < x.len() {
                if j < y.len() - 1 {
                    assert(x[j] == y[j] && x[j + 1] == y[j + 1]);
                    assert(!sep_at(y, j));
                } else if j == y.len() - 1 {
                    assert(x[j] == y.last());
                } else if j == y.len() {
                    assert(x[j + 1] == w[0]);
                } else {
                    assert(x[j] == w[j - y.len() - 1]);
                }
            }
        }
    }
}

/// A serialised message whose parts can be told apart parses back into its prefix, the
/// words of its command and arguments, and its trailing argument.
#[verifier::rlimit(60)]
pub proof fn lemma_parse_serialised(m: MsgView)
    requires
        parts_ok(m),
    ensures
        parse_spec(serialise(m)) == assemble(m.prefix, seq![m.command] + m.args, m.suffix),
{
    let ws = seq![m.command] + m.args;
    assert forall|i: int| 0 <= i < ws.len() implies is_word(#[trigger] ws[i]) by {
        if i > 0 {
            assert(ws[i] == m.args[i - 1]);
        }
    }
    lemma_join_shape(ws);
    lemma_scan_join(ws);
    let x = join_words(ws);
    let pre: Seq<char> = match m.prefix {
        Some(p) => seq![':'] + p + seq![' '],
        None => Seq::empty(),
    };
    let tail: Seq<char> = match m.suffix {
        Some(t) => seq![' ', ':'] + t,
        None => Seq::empty(),
    };
    let s = serialise(m);
    assert(s == pre + x + tail);
    let rest = x + tail;
    assert forall|j: int| 0 <= j < s.len() implies !is_forbidden(#[trigger] s[j]) by {
        if j < pre.len() {
            if let Some(p) = m.prefix {
                if 0 < j < pre.len() - 1 {
                    assert(s[j] == p[j - 1]);
                }
            }
        } else if j < pre.len() + x.len() {
            assert(s[j] == x[j - pre.len()]);
        } else {
            if let Some(t) = m.suffix {
                if j >= pre.len() + x.len() + 2 {
                    assert(s[j] == t[j - pre.len() - x.len() - 2]);
                }
            }
        }
    }
    assert(!has_forbidden(s));
    assert(ws[0] == m.command);
    // the rest, after the prefix, starts with the command and has its trailing part at
    // the first " :"
    assert(rest.len() > 0 && rest[0] == x[0]);
    match m.suffix {
        Some(t) => {
            assert(tail == seq![' ', ':'] + t);
            assert(sep_at(rest, x.len() as int)) by {
                assert(rest[x.len() as int] == ' ');
                assert(rest[x.len() as int + 1] == ':');
            }
            assert forall|j: int| 0 <= j < x.len() implies !sep_at(rest, j) by {
                if j < x.len() - 1 {
                    assert(rest[j] == x[j] && rest[j + 1] == x[j + 1]);
                    assert(!sep_at(x, j));
                } else {
                    assert(rest[j] == x.last());
                }
            }
            lemma_first_sep(rest, x.len() as int);
            assert(rest.take(x.len() as int) =~= x);
            assert(rest.subrange(x.len() as int + 2, rest.len() as int) =~= t);
        },
        None => {
            assert(rest =~= x);
            assert(!exists|k: int| is_first_sep(rest, k));
        },
    }
    assert(parse_rest(m.prefix, rest) == assemble(m.prefix, ws, m.suffix));
    match m.prefix {
        Some(p) => {
            let sp: int = p.len() as int + 1;
            assert(s[0] == ':');
            assert(is_first(s, ' ', sp)) by {
                assert(s[sp] == ' ');
                assert forall|j: int| 0 <= j < sp implies s[j] != ' ' by {
                    if j > 0 {
                        assert(s[j] == p[j - 1]);
                    }
                }
            }
            lemma_first_of(s, ' ', sp);
            assert(s.subrange(1, sp) =~= p);
            assert(s.subrange(sp + 1, s.len() as int) =~= rest);
        },
        None => {
            assert(s =~= rest);
        },
    }
}

/// Parsing the wire form of a well-formed message gives back that message.
pub proof fn lemma_parse_serialise_round_trip(m: MsgView)
    requires
        well_formed(m),
    ensures
        parse_spec(serialise(m)) == Ok::<MsgView, ParseError>(m),
{
    lemma_parse_serialised(m);
    let ws = seq![m.command] + m.args;
    assert(ws.subrange(1, ws.len() as int) =~= m.args);
}

/// A line with a command and exactly fifteen middle arguments parses into the first
/// fourteen arguments, the fifteenth becoming the trailing argument, joined by a space
/// before any trailing argument already on the line.
pub proof fn lemma_fifteenth_argument_trails(m: MsgView)
    requires
        parts_ok(m),
        m.args.len() == 15,
    ensures
        parse_spec(serialise(m)) == Ok::<MsgView, ParseError>(
            MsgView {
                prefix: m.prefix,
                command: m.command,
                args: m.args.take(14),
                suffix: match m.suffix {
                    Some(t) => Some(m.args[14] + seq![' '] + t),
                    None => Some(m.args[14]),
                },
            },
        ),
{
    lemma_parse_serialised(m);
    let ws = seq![m.command] + m.args;
    assert(ws.subrange(1, 15) =~= m.args.take(14));
    assert(ws.subrange(15, 16) =~= seq![m.args[14]]);
}

} // verus!
