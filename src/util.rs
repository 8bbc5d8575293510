//! Labels (nicknames and channel names), their case folding, and wildcard masks.
use vstd::prelude::*;
use vstd::std_specs::iter::IteratorSpec;

verus! {

/// Whether `c` is one of the punctuation characters allowed in labels.
pub open spec fn is_label_punct(c: char) -> bool {
    c == '{' || c == '}' || c == '|' || c == '^' || c == '[' || c == ']' || c == '\\' || c == '-'
        || c == '_' || c == '`'
}

pub open spec fn is_ascii_letter(c: char) -> bool {
    ('a' <= c && c <= 'z') || ('A' <= c && c <= 'Z')
}

pub open spec fn is_ascii_digit(c: char) -> bool {
    '0' <= c && c <= '9'
}

/// A character that may appear anywhere in a label.
pub open spec fn is_label_char(c: char) -> bool {
    is_ascii_letter(c) || is_ascii_digit(c) || is_label_punct(c)
}

/// A valid label: ASCII, non-empty, made of letters, digits and the label punctuation,
/// and not starting with a digit.
pub open spec fn is_label(s: Seq<char>) -> bool {
    &&& s.len() > 0
    &&& !is_ascii_digit(s[0])
    &&& forall|i: int| 0 <= i < s.len() ==> is_label_char(#[trigger] s[i])
}

/// A valid channel name: `#` followed by a valid label.
pub open spec fn is_channame(s: Seq<char>) -> bool {
    s.len() > 0 && s[0] == '#' && is_label(s.drop_first())
}

/// ASCII lower case of one character.
pub open spec fn lower_char(c: char) -> char {
    if 'A' <= c && c <= 'Z' {
        ((c as u8) + 32) as char
    } else {
        c
    }
}

/// Case folding of one character: `[`, `]` and `\` fold to `{`, `}` and `|`,
/// and ASCII letters fold to lower case.
pub open spec fn fold_char(c: char) -> char {
    if c == '[' {
        '{'
    } else if c == ']' {
        '}'
    } else if c == '\\' {
        '|'
    } else {
        lower_char(c)
    }
}

/// Case folding of a label.
pub open spec fn fold(s: Seq<char>) -> Seq<char> {
    s.map_values(|c: char| fold_char(c))
}

/// Whether every character of `s` is `*`.
pub open spec fn all_stars(s: Seq<char>) -> bool {
    forall|i: int| 0 <= i < s.len() ==> #[trigger] s[i] == '*'
}

/// Whether `label` matches the wildcard `mask`: `?` stands for one character and `*` for
/// any run of characters, the empty run included; other characters compare without
/// ASCII case.
pub open spec fn mask_match(label: Seq<char>, mask: Seq<char>) -> bool
    decreases label.len(), mask.len(),
{
    if label.len() == 0 {
        all_stars(mask)
    } else if mask.len() == 0 {
        false
    } else if mask[0] == '?' {
        mask_match(label.drop_first(), mask.drop_first())
    } else if mask[0] == '*' {
        mask_match(label, mask.drop_first()) || mask_match(label.drop_first(), mask)
    } else {
        lower_char(mask[0]) == lower_char(label[0]) && mask_match(
            label.drop_first(),
            mask.drop_first(),
        )
    }
}

/// The characters of `s`, in order.
pub(crate) fn chars_of(s: &str) -> (r: Vec<char>)
    ensures
        r@ == s@,
{
    broadcast use vstd::string::group_string_axioms;
    let mut it = s.chars();
    let mut out: Vec<char> = Vec::new();
    loop
        invariant
            out@ + it.remaining() == s@,
            it.decrease() is Some,
        ensures
            out@ == s@,
        decreases it.decrease()->0,
    {
        let ghost before = it.remaining();
        match it.next() {
            Some(c) => {
                out.push(c);
                assert(out@ + it.remaining() =~= s@) by {
                    assert(before == seq![c] + it.remaining());
                }
            },
            None => {
                assert(out@ =~= s@);
                break;
            },
        }
    }
    out
}

/// Relies on collecting `char`s into a `String`: the string of these characters, in order.
#[verifier::external_body]
pub(crate) fn string_of(v: &[char]) -> (r: String)
    ensures
        r@ == v@,
{
    v.iter().collect()
}

/// Relies on `String::push`: appends one character.
#[verifier::external_body]
pub(crate) fn push_char(s: &mut String, c: char)
    ensures
        final(s)@ == old(s)@.push(c),
{
    s.push(c)
}

pub fn is_label_char_exec(c: char) -> (r: bool)
    ensures
        r == is_label_char(c),
{
    ('a' <= c && c <= 'z') || ('A' <= c && c <= 'Z') || ('0' <= c && c <= '9') || c == '{' || c
        == '}' || c == '|' || c == '^' || c == '[' || c == ']' || c == '\\' || c == '-' || c == '_'
        || c == '`'
}

fn label_chars_ok(v: &Vec<char>, from: usize) -> (r: bool)
    requires
        from <= v.len(),
    ensures
        r == (forall|i: int| from <= i < v.len() ==> is_label_char(#[trigger] v@[i])),
{
    let mut i: usize = from;
    while i < v.len()
        invariant
            from <= i <= v.len(),
            forall|k: int| from <= k < i ==> is_label_char(#[trigger] v@[k]),
        decreases v.len() - i,
    {
        if !is_label_char_exec(v[i]) {
            return false;
        }
        i = i + 1;
    }
    true
}

/// Checks if a label (a nickname, or a channel name without its `#`) is valid.
pub fn check_label(label: &str) -> (r: bool)
    ensures
        r == is_label(label@),
{
    let v = chars_of(label);
    if v.len() == 0 {
        return false;
    }
    let c = v[0];
    if '0' <= c && c <= '9' {
        return false;
    }
    label_chars_ok(&v, 0)
}

/// Checks if a channel name (with its `#` prefix) is valid.
pub fn check_channame(name: &str) -> (r: bool)
    ensures
        r == is_channame(name@),
{
    let v = chars_of(name);
    if v.len() == 0 || v[0] != '#' {
        return false;
    }
    if v.len() == 1 {
        return false;
    }
    let c = v[1];
    if '0' <= c && c <= '9' {
        assert(v@.drop_first()[0] == c);
        return false;
    }
    let ok = label_chars_ok(&v, 1);
    proof {
        let t = v@.drop_first();
        if ok {
            assert forall|i: int| 0 <= i < t.len() implies is_label_char(#[trigger] t[i]) by {
                assert(t[i] == v@[i + 1]);
            }
        } else {
            let k = choose|k: int| 1 <= k < v.len() && !is_label_char(#[trigger] v@[k]);
            assert(t[k - 1] == v@[k]);
        }
    }
    ok
}

pub fn lower_char_exec(c: char) -> (r: char)
    ensures
        r == lower_char(c),
{
    if 'A' <= c && c <= 'Z' {
        ((c as u8) + 32) as char
    } else {
        c
    }
}

pub fn fold_char_exec(c: char) -> (r: char)
    ensures
        r == fold_char(c),
{
    if c == '[' {
        '{'
    } else if c == ']' {
        '}'
    } else if c == '\\' {
        '|'
    } else {
        lower_char_exec(c)
    }
}

/// Folds the characters of `v` into a new string.
pub fn fold_chars(v: &Vec<char>) -> (r: String)
    ensures
        r@ == fold(v@),
{
    let mut out: Vec<char> = Vec::new();
    let mut i: usize = 0;
    while i < v.len()
        invariant
            i <= v.len(),
            out@ == fold(v@.take(i as int)),
        decreases v.len() - i,
    {
        out.push(fold_char_exec(v[i]));
        assert(v@.take(i as int + 1) == v@.take(i as int).push(v@[i as int]));
        i = i + 1;
    }
    assert(v@.take(v.len() as int) == v@);
    string_of(out.as_slice())
}

/// Returns the case-folded version of a label, nickname or channel name.
pub fn label_to_lower(label: &str) -> (r: String)
    ensures
        r@ == fold(label@),
{
    let v = chars_of(label);
    fold_chars(&v)
}

fn mask_match_from(l: &Vec<char>, i: usize, m: &Vec<char>, j: usize) -> (r: bool)
    requires
        i <= l.len(),
        j <= m.len(),
    ensures
        r == mask_match(l@.subrange(i as int, l.len() as int), m@.subrange(j as int, m.len() as int)),
    decreases l.len() - i, m.len() - j,
{
    let ghost ls = l@.subrange(i as int, l.len() as int);
    let ghost ms = m@.subrange(j as int, m.len() as int);
    if i == l.len() {
        let mut k: usize = j;
        while k < m.len()
            invariant
                j <= k <= m.len(),
                ms == m@.subrange(j as int, m.len() as int),
                ls.len() == 0,
                i == l.len(),
                ls == l@.subrange(i as int, l.len() as int),
                forall|q: int| j <= q < k ==> m@[q] == '*',
            decreases m.len() - k,
        {
            if m[k] != '*' {
                assert(ms[k - j] == m@[k as int]);
                assert(!all_stars(ms));
                return false;
            }
            k = k + 1;
        }
        assert forall|q: int| 0 <= q < ms.len() implies #[trigger] ms[q] == '*' by {
            assert(ms[q] == m@[q + j]);
        }
        return true;
    }
    if j == m.len() {
        return false;
    }
    assert(ls.drop_first() =~= l@.subrange(i as int + 1, l.len() as int));
    assert(ms.drop_first() =~= m@.subrange(j as int + 1, m.len() as int));
    assert(ms[0] == m@[j as int]);
    assert(ls[0] == l@[i as int]);
    let c = m[j];
    if c == '?' {
        mask_match_from(l, i + 1, m, j + 1)
    } else if c == '*' {
        mask_match_from(l, i, m, j + 1) || mask_match_from(l, i + 1, m, j)
    } else {
        lower_char_exec(c) == lower_char_exec(l[i]) && mask_match_from(l, i + 1, m, j + 1)
    }
}

/// Returns whether the given mask matches the given label.
pub fn matches_mask(label: &str, mask: &str) -> (r: bool)
    ensures
        r == mask_match(label@, mask@),
{
    let l = chars_of(label);
    let m = chars_of(mask);
    assert(l@.subrange(0, l.len() as int) =~= l@);
    assert(m@.subrange(0, m.len() as int) =~= m@);
    mask_match_from(&l, 0, &m, 0)
}

/// ASCII upper case of one character.
pub open spec fn upper_char(c: char) -> char {
    if 'a' <= c && c <= 'z' {
        ((c as u8) - 32) as char
    } else {
        c
    }
}

/// ASCII upper case of a string.
pub open spec fn upper(s: Seq<char>) -> Seq<char> {
    s.map_values(|c: char| upper_char(c))
}

/// Returns the ASCII upper case of `s`.
pub fn to_upper(s: &str) -> (r: String)
    ensures
        r@ == upper(s@),
{
    let v = chars_of(s);
    let mut out: Vec<char> = Vec::new();
    let mut i: usize = 0;
    while i < v.len()
        invariant
            i <= v.len(),
            out@ == upper(v@.take(i as int)),
        decreases v.len() - i,
    {
        let c = v[i];
        let u = if 'a' <= c && c <= 'z' {
            ((c as u8) - 32) as char
        } else {
            c
        };
        out.push(u);
        assert(v@.take(i as int + 1) == v@.take(i as int).push(c));
        assert(upper(v@.take(i as int + 1)) =~= upper(v@.take(i as int)).push(u));
        i = i + 1;
    }
    assert(v@.take(v.len() as int) =~= v@);
    string_of(out.as_slice())
}

/// Splitting on a separator, as a left-to-right scan: the pieces completed so far and
/// the piece being read.
pub open spec fn scan_sep(s: Seq<char>, sep: char) -> (Seq<Seq<char>>, Seq<char>)
    decreases s.len(),
{
    if s.len() == 0 {
        (Seq::empty(), Seq::empty())
    } else {
        let (ps, cur) = scan_sep(s.drop_last(), sep);
        if s.last() == sep {
            if cur.len() > 0 {
                (ps.push(cur), Seq::empty())
            } else {
                (ps, Seq::empty())
            }
        } else {
            (ps, cur.push(s.last()))
        }
    }
}

/// The non-empty pieces of `s` between occurrences of `sep`.
pub open spec fn pieces(s: Seq<char>, sep: char) -> Seq<Seq<char>> {
    let (ps, cur) = scan_sep(s, sep);
    if cur.len() > 0 {
        ps.push(cur)
    } else {
        ps
    }
}

/// Splits `s` on `sep`, dropping empty pieces.
pub fn split_on(s: &str, sep: char) -> (r: Vec<String>)
    ensures
        r@.map_values(|x: String| x@) == pieces(s@, sep),
{
    let b = chars_of(s);
    let mut ps: Vec<String> = Vec::new();
    let mut cur: Vec<char> = Vec::new();
    let mut i: usize = 0;
    while i < b.len()
        invariant
            i <= b.len(),
            scan_sep(b@.take(i as int), sep) == (ps@.map_values(|x: String| x@), cur@),
        decreases b.len() - i,
    {
        let c = b[i];
        assert(b@.take(i as int + 1).drop_last() =~= b@.take(i as int));
        assert(b@.take(i as int + 1).last() == c);
        if c == sep {
            if cur.len() > 0 {
                let w = string_of(cur.as_slice());
                let ghost old_ps = ps@;
                ps.push(w);
                assert(ps@.map_values(|x: String| x@) =~= old_ps.map_values(|x: String| x@).push(cur@));
                cur = Vec::new();
            }
        } else {
            cur.push(c);
        }
        i = i + 1;
    }
    assert(b@.take(b.len() as int) =~= b@);
    if cur.len() > 0 {
        let w = string_of(cur.as_slice());
        let ghost old_ps = ps@;
        ps.push(w);
        assert(ps@.map_values(|x: String| x@) =~= old_ps.map_values(|x: String| x@).push(cur@));
    }
    ps
}

/// Case folding is idempotent: folding a folded label changes nothing.
pub proof fn lemma_fold_idempotent(s: Seq<char>)
    ensures
        fold(fold(s)) == fold(s),
{
    assert forall|i: int| 0 <= i < s.len() implies #[trigger] fold_char(fold_char(s[i])) == fold_char(
        s[i],
    ) by {
        let c = s[i];
        if 'A' <= c && c <= 'Z' {
            assert((c as u8) + 32 >= 97);
        }
    }
    assert(fold(fold(s)) =~= fold(s));
}

/// Every label matches itself taken as a mask.
pub proof fn lemma_mask_matches_itself(s: Seq<char>)
    ensures
        mask_match(s, s),
    decreases s.len(),
{
    if s.len() > 0 {
        lemma_mask_matches_itself(s.drop_first());
        if s[0] == '*' {
            let t = s.drop_first();
            if t.len() == 0 {
                assert(s =~= seq!['*']);
                assert(all_stars(s));
                assert(mask_match(t, s));
            } else {
                assert(mask_match(t, s.drop_first()));
                assert(mask_match(t, s));
            }
            assert(mask_match(s.drop_first(), s));
        }
    }
}

/// Every label matches the mask `*`.
pub proof fn lemma_star_matches_all(s: Seq<char>)
    ensures
        mask_match(s, seq!['*']),
    decreases s.len(),
{
    if s.len() > 0 {
        lemma_star_matches_all(s.drop_first());
        assert(seq!['*'].drop_first() =~= Seq::<char>::empty());
        assert(all_stars(Seq::<char>::empty()));
    } else {
        assert(all_stars(seq!['*']));
    }
}

} // verus!
