//! Mode sets: single-letter flags of users, channels and memberships.
use vstd::prelude::*;
use crate::util::{push_char, string_of};

verus! {

/// Number of mode letters: `a` to `z`, then `A` to `Z`.
pub const MODE_SLOTS: usize = 52;

/// Slot of a mode letter, if it is one.
pub open spec fn slot_of(c: char) -> Option<int> {
    if 'a' <= c && c <= 'z' {
        Some(c as int - 'a' as int)
    } else if 'A' <= c && c <= 'Z' {
        Some(c as int - 'A' as int + 26)
    } else {
        None
    }
}

/// Letter of a slot.
pub open spec fn letter_of(i: int) -> char {
    if i < 26 {
        (i + 97) as char
    } else {
        (i - 26 + 65) as char
    }
}

/// The letters of slots `i` (lower case) and `i + 26` (upper case) that are set.
pub open spec fn slot_pair(f: Seq<bool>, i: int) -> Seq<char> {
    (if f[i] {
        seq![letter_of(i)]
    } else {
        Seq::empty()
    }) + (if f[i + 26] {
        seq![letter_of(i + 26)]
    } else {
        Seq::empty()
    })
}

/// The set letters among the first `n` slot pairs, in order.
pub open spec fn letters_upto(f: Seq<bool>, n: int) -> Seq<char>
    decreases n,
{
    if n <= 0 {
        Seq::empty()
    } else {
        letters_upto(f, n - 1) + slot_pair(f, n - 1)
    }
}

/// The mode string of a set of flags: `+` followed by the set letters, each lower-case
/// letter before its upper-case one, in alphabetical order; empty when no flag is set.
pub open spec fn render(f: Seq<bool>) -> Seq<char> {
    let l = letters_upto(f, 26);
    if l.len() == 0 {
        Seq::empty()
    } else {
        seq!['+'] + l
    }
}

/// The flags named by the letters of a mode string; other characters are ignored.
pub open spec fn flags_of(s: Seq<char>) -> Seq<bool> {
    Seq::new(52, |i: int| s.contains(letter_of(i)))
}

/// A set of single-letter flags.
pub struct Modes {
    flags: Vec<bool>,
}

impl View for Modes {
    type V = Seq<bool>;

    closed spec fn view(&self) -> Seq<bool> {
        self.flags@
    }
}

impl Modes {
    /// Whether the flag `c` is set in the view `f`.
    pub open spec fn has(f: Seq<bool>, c: char) -> bool {
        slot_of(c) is Some && f[slot_of(c)->0]
    }

    /// The empty set of flags.
    pub fn new() -> (r: Modes)
        ensures
            r@ == Seq::new(52, |i: int| false),
    {
        let mut flags: Vec<bool> = Vec::new();
        let mut i: usize = 0;
        while i < MODE_SLOTS
            invariant
                i <= MODE_SLOTS,
                flags@ == Seq::new(i as nat, |k: int| false),
            decreases MODE_SLOTS - i,
        {
            flags.push(false);
            i = i + 1;
            assert(flags@ =~= Seq::new(i as nat, |k: int| false));
        }
        Modes { flags }
    }

    /// A copy of this set.
    pub fn copy(&self) -> (r: Modes)
        ensures
            r@ == self@,
    {
        let mut flags: Vec<bool> = Vec::new();
        let mut i: usize = 0;
        while i < self.flags.len()
            invariant
                i <= self.flags.len(),
                flags@ == self.flags@.take(i as int),
            decreases self.flags.len() - i,
        {
            flags.push(self.flags[i]);
            assert(self.flags@.take(i as int + 1) =~= self.flags@.take(i as int).push(
                self.flags@[i as int],
            ));
            i = i + 1;
        }
        assert(self.flags@.take(self.flags.len() as int) =~= self.flags@);
        Modes { flags }
    }

    /// Slot of a mode letter, or `None` if the character is not an ASCII letter.
    pub fn index_of(flag: char) -> (r: Option<usize>)
        ensures
            r matches Some(i) ==> slot_of(flag) == Some(i as int),
            r is None ==> slot_of(flag) is None,
    {
        if 'a' <= flag && flag <= 'z' {
            Some(((flag as u32) - ('a' as u32)) as usize)
        } else if 'A' <= flag && flag <= 'Z' {
            Some(((flag as u32) - ('A' as u32) + 26) as usize)
        } else {
            None
        }
    }

    /// Returns `true` if no flag is set.
    pub fn none(&self) -> (r: bool)
        requires
            self@.len() == 52,
        ensures
            r == (forall|i: int| 0 <= i < 52 ==> !#[trigger] self@[i]),
    {
        let mut i: usize = 0;
        while i < MODE_SLOTS
            invariant
                i <= MODE_SLOTS,
                self.flags@.len() == 52,
                forall|k: int| 0 <= k < i ==> !#[trigger] self.flags@[k],
            decreases MODE_SLOTS - i,
        {
            if self.flags[i] {
                assert(self@[i as int]);
                return false;
            }
            i = i + 1;
        }
        true
    }

    /// Whether the flag is set; always `false` for a character that is not a mode letter.
    pub fn get(&self, flag: char) -> (r: bool)
        requires
            self@.len() == 52,
        ensures
            r == Modes::has(self@, flag),
    {
        match Modes::index_of(flag) {
            Some(i) => self.flags[i],
            None => false,
        }
    }

    /// Sets or clears the flag; does nothing for a character that is not a mode letter.
    pub fn set(&mut self, flag: char, v: bool)
        requires
            old(self)@.len() == 52,
        ensures
            slot_of(flag) matches Some(i) ==> final(self)@ == old(self)@.update(i, v),
            slot_of(flag) is None ==> final(self)@ == old(self)@,
    {
        match Modes::index_of(flag) {
            Some(i) => {
                self.flags.set(i, v);
            },
            None => {},
        }
    }

    /// Returns the mode string of this set (`"+abc"`, or `""` when empty).
    pub fn to_modestring(&self) -> (r: String)
        requires
            self@.len() == 52,
        ensures
            r@ == render(self@),
    {
        let mut out: Vec<char> = Vec::new();
        let mut i: usize = 0;
        while i < 26
            invariant
                i <= 26,
                self.flags@.len() == 52,
                out@ == letters_upto(self@, i as int),
            decreases 26 - i,
        {
            let ghost before = out@;
            if self.flags[i] {
                out.push(((i as u8) + 97) as char);
            }
            if self.flags[i + 26] {
                out.push(((i as u8) + 65) as char);
            }
            assert(out@ =~= before + slot_pair(self@, i as int));
            i = i + 1;
        }
        if out.len() == 0 {
            return String::new();
        }
        let mut r = String::new();
        push_char(&mut r, '+');
        let l = string_of(out.as_slice());
        r.append(l.as_str());
        r
    }

    /// The set of flags named by the letters of a mode string such as `"+abc"`.
    pub fn from_modestring(s: &str) -> (r: Modes)
        ensures
            r@ == flags_of(s@),
    {
        let v = crate::util::chars_of(s);
        let mut m = Modes::new();
        let mut k: usize = 0;
        while k < v.len()
            invariant
                k <= v.len(),
                v@ == s@,
                m@ == Seq::new(52, |i: int| v@.take(k as int).contains(letter_of(i))),
            decreases v.len() - k,
        {
            let c = v[k];
            m.set(c, true);
            proof {
                let t = v@.take(k as int + 1);
                assert(t == v@.take(k as int).push(c));
                assert forall|i: int| 0 <= i < 52 implies #[trigger] m@[i] == t.contains(
                    letter_of(i),
                ) by {
                    lemma_letter_slot(i);
                    if t.contains(letter_of(i)) {
                        let j = choose|j: int| 0 <= j < t.len() && t[j] == letter_of(i);
                        if j < k {
                            assert(v@.take(k as int)[j] == letter_of(i));
                        }
                    }
                    if v@.take(k as int).contains(letter_of(i)) {
                        let j = choose|j: int|
                            0 <= j < k && v@.take(k as int)[j] == letter_of(i);
                        assert(t[j] == letter_of(i));
                    }
                    if c == letter_of(i) {
                        assert(t[k as int] == c);
                    }
                }
                assert(m@ =~= Seq::new(52, |i: int| t.contains(letter_of(i))));
            }
            k = k + 1;
        }
        assert(v@.take(v.len() as int) =~= v@);
        m
    }
}

/// The letter of a slot has that slot, and a letter is the letter of its slot.
pub proof fn lemma_letter_slot(i: int)
    requires
        0 <= i < 52,
    ensures
        slot_of(letter_of(i)) == Some(i),
        forall|c: char| slot_of(c) == Some(i) ==> c == letter_of(i),
{
    assert forall|c: char| slot_of(c) == Some(i) implies c == letter_of(i) by {
        if 'a' <= c && c <= 'z' {
            assert(i < 26);
            assert((c as int) == i + 97);
        } else {
            assert((c as int) == i - 26 + 65);
        }
    }
}

/// Which letters the first `n` slot pairs render.
proof fn lemma_letters_upto_contains(f: Seq<bool>, n: int, i: int)
    requires
        f.len() == 52,
        0 <= n <= 26,
        0 <= i < 52,
    ensures
        letters_upto(f, n).contains(letter_of(i)) == (f[i] && (if i < 26 {
            i < n
        } else {
            i - 26 < n
        })),
    decreases n,
{
    lemma_letter_slot(i);
    if n > 0 {
        lemma_letters_upto_contains(f, n - 1, i);
        let a = letters_upto(f, n - 1);
        let b = slot_pair(f, n - 1);
        assert(letters_upto(f, n) == a + b);
        lemma_letter_slot(n - 1);
        lemma_letter_slot(n - 1 + 26);
        if (a + b).contains(letter_of(i)) {
            let j = choose|j: int| 0 <= j < (a + b).len() && (a + b)[j] == letter_of(i);
            if j >= a.len() {
                assert(b[j - a.len()] == letter_of(i));
            } else {
                assert(a[j] == letter_of(i));
            }
        }
        if a.contains(letter_of(i)) {
            let j = choose|j: int| 0 <= j < a.len() && a[j] == letter_of(i);
            assert((a + b)[j] == letter_of(i));
        }
        if b.contains(letter_of(i)) {
            let j = choose|j: int| 0 <= j < b.len() && b[j] == letter_of(i);
            assert((a + b)[a.len() + j] == letter_of(i));
        }
        if f[i] && i == n - 1 {
            assert(b[0] == letter_of(i));
        }
        if f[i] && i == n - 1 + 26 {
            assert(b[b.len() - 1] == letter_of(i));
        }
    }
}

/// Reading back the mode string of a set of flags gives the same set.
pub proof fn lemma_modestring_round_trip(f: Seq<bool>)
    requires
        f.len() == 52,
    ensures
        flags_of(render(f)) == f,
{
    let l = letters_upto(f, 26);
    assert forall|i: int| 0 <= i < 52 implies #[trigger] flags_of(render(f))[i] == f[i] by {
        lemma_letters_upto_contains(f, 26, i);
        lemma_letter_slot(i);
        if l.len() > 0 {
            let r = seq!['+'] + l;
            if r.contains(letter_of(i)) {
                let j = choose|j: int| 0 <= j < r.len() && r[j] == letter_of(i);
                assert(j > 0);
                assert(l[j - 1] == letter_of(i));
            }
            if l.contains(letter_of(i)) {
                let j = choose|j: int| 0 <= j < l.len() && l[j] == letter_of(i);
                assert(r[j + 1] == letter_of(i));
            }
        }
    }
    assert(flags_of(render(f)) =~= f);
}

/// Every letter among the first `n` slot pairs has a slot below `n` or within
/// `26..26 + n`, and no letter repeats.
proof fn lemma_letters_upto_shape(f: Seq<bool>, n: int)
    requires
        f.len() == 52,
        0 <= n <= 26,
    ensures
        forall|j: int| 0 <= j < letters_upto(f, n).len() ==> (slot_of(#[trigger] letters_upto(f, n)[j]) matches Some(s)
            && ((0 <= s < n) || (26 <= s < 26 + n))),
        forall|a: int, b: int| 0 <= a < b < letters_upto(f, n).len() ==> letters_upto(f, n)[a] != letters_upto(f, n)[b],
        (letters_upto(f, n).len() == 0) == (forall|i: int| 0 <= i < n ==> !#[trigger] f[i] && !f[i + 26]),
    decreases n,
{
    if n > 0 {
        lemma_letters_upto_shape(f, n - 1);
        let p = letters_upto(f, n - 1);
        let q = slot_pair(f, n - 1);
        let l = letters_upto(f, n);
        assert(l == p + q);
        lemma_letter_slot(n - 1);
        lemma_letter_slot(n - 1 + 26);
        assert forall|j: int| 0 <= j < l.len() implies (slot_of(#[trigger] l[j]) matches Some(s)
            && ((0 <= s < n) || (26 <= s < 26 + n))) by {
            if j < p.len() {
                assert(l[j] == p[j]);
            } else {
                assert(l[j] == q[j - p.len()]);
            }
        }
        assert forall|a: int, b: int| 0 <= a < b < l.len() implies l[a] != l[b] by {
            if b < p.len() {
                assert(l[a] == p[a] && l[b] == p[b]);
            } else if a < p.len() {
                assert(l[a] == p[a]);
                assert(l[b] == q[b - p.len()]);
                assert(slot_of(p[a]) matches Some(s) && ((0 <= s < n - 1) || (26 <= s < 26 + n - 1)));
            } else {
                assert(l[a] == q[a - p.len()] && l[b] == q[b - p.len()]);
            }
        }
        if forall|i: int| 0 <= i < n ==> !#[trigger] f[i] && !f[i + 26] {
            assert(forall|i: int| 0 <= i < n - 1 ==> !#[trigger] f[i] && !f[i + 26]);
            assert(q.len() == 0);
        }
    }
}

/// The mode string of a set of flags is empty exactly when no flag is set; otherwise it
/// is `+` followed by letters, none of them repeated.
pub proof fn lemma_modestring_shape(f: Seq<bool>)
    requires
        f.len() == 52,
    ensures
        (render(f).len() == 0) == (forall|i: int| 0 <= i < 52 ==> !#[trigger] f[i]),
        render(f).len() > 0 ==> render(f)[0] == '+',
        forall|a: int, b: int| 1 <= a < b < render(f).len() ==> render(f)[a] != render(f)[b],
{
    lemma_letters_upto_shape(f, 26);
    let l = letters_upto(f, 26);
    if forall|i: int| 0 <= i < 52 ==> !#[trigger] f[i] {
        assert forall|i: int| 0 <= i < 26 implies !#[trigger] f[i] && !f[i + 26] by {
            assert(!f[i + 26]);
        }
    }
    if forall|i: int| 0 <= i < 26 ==> !#[trigger] f[i] && !f[i + 26] {
        assert forall|i: int| 0 <= i < 52 implies !#[trigger] f[i] by {
            if i >= 26 {
                assert(!f[i - 26]);
                assert(!f[(i - 26) + 26]);
            }
        }
    }
    if l.len() > 0 {
        let r = seq!['+'] + l;
        assert forall|a: int, b: int| 1 <= a < b < r.len() implies r[a] != r[b] by {
            assert(r[a] == l[a - 1] && r[b] == l[b - 1]);
        }
    }
}

/// The rank of a membership: 2 for channel operator, 1 for voice, 0 for none.
pub open spec fn membership_rank(m: MembershipMode) -> int {
    if m.op {
        2
    } else if m.voice {
        1
    } else {
        0
    }
}

/// Modes of a user in a channel: voice (`v`) and channel operator (`o`), op above voice.
#[derive(PartialEq, Eq, Structural, Clone, Copy, Debug)]
pub struct MembershipMode {
    pub voice: bool,
    pub op: bool,
}

impl MembershipMode {
    pub fn empty() -> (r: MembershipMode)
        ensures
            !r.voice && !r.op,
    {
        MembershipMode { voice: false, op: false }
    }

    /// The membership with only voice.
    pub fn voice() -> (r: MembershipMode)
        ensures
            r.voice && !r.op,
    {
        MembershipMode { voice: true, op: false }
    }

    /// The membership with only channel operator.
    pub fn op() -> (r: MembershipMode)
        ensures
            !r.voice && r.op,
    {
        MembershipMode { voice: false, op: true }
    }

    /// The membership flag of a letter: `v` is voice, `o` is operator.
    pub fn from_char(c: char) -> (r: Option<MembershipMode>)
        ensures
            c == 'v' ==> r == Some(MembershipMode { voice: true, op: false }),
            c == 'o' ==> r == Some(MembershipMode { voice: false, op: true }),
            c != 'v' && c != 'o' ==> r is None,
    {
        if c == 'v' {
            Some(MembershipMode::voice())
        } else if c == 'o' {
            Some(MembershipMode::op())
        } else {
            None
        }
    }

    /// Returns `true` if this mode is equal to or better than `other`.
    pub fn is_at_least(&self, other: &MembershipMode) -> (r: bool)
        ensures
            r == (membership_rank(*self) >= membership_rank(*other)),
    {
        let a: u8 = if self.op {
            2
        } else if self.voice {
            1
        } else {
            0
        };
        let b: u8 = if other.op {
            2
        } else if other.voice {
            1
        } else {
            0
        };
        a >= b
    }

    /// Returns the best mode held: operator if held, else voice if held, else none.
    pub fn best_mode(&self) -> (r: MembershipMode)
        ensures
            r.op == self.op,
            r.voice == (self.voice && !self.op),
            membership_rank(r) == membership_rank(*self),
    {
        if self.op {
            MembershipMode::op()
        } else if self.voice {
            MembershipMode::voice()
        } else {
            MembershipMode::empty()
        }
    }

    /// The nickname prefix of this membership: `@` for operator, `+` for voice.
    pub fn prefix(&self) -> (r: Option<char>)
        ensures
            self.op ==> r == Some('@'),
            !self.op && self.voice ==> r == Some('+'),
            !self.op && !self.voice ==> r is None,
    {
        if self.op {
            Some('@')
        } else if self.voice {
            Some('+')
        } else {
            None
        }
    }
}

/// The nickname prefix of a membership: `@` for operator, `+` for voice.
pub fn letter_for_membership(m: &MembershipMode) -> (r: Option<char>)
    ensures
        m.op ==> r == Some('@'),
        !m.op && m.voice ==> r == Some('+'),
        !m.op && !m.voice ==> r is None,
{
    m.prefix()
}

} // verus!
