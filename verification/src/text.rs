//! Character-level string facts shared by the rest of the library:
//! the order of `str` values, prefixes, suffixes and Unicode whitespace.

use vstd::prelude::*;
use vstd::utf8::encode_utf8;

verus! {

/// Strict lexicographic order of character sequences by code point.
/// UTF-8 encoding preserves code point order, so this is the order of
/// Rust's `Ord for str`.
pub open spec fn str_lt(a: Seq<char>, b: Seq<char>) -> bool
    decreases a.len(),
{
    if a.len() == 0 {
        b.len() > 0
    } else if b.len() == 0 {
        false
    } else if a[0] != b[0] {
        (a[0] as int) < (b[0] as int)
    } else {
        str_lt(a.drop_first(), b.drop_first())
    }
}

/// Comparing two texts that start with parts of equal length compares
/// those parts first, and the rest only when the parts are the same.
pub proof fn lemma_str_lt_split(p1: Seq<char>, s1: Seq<char>, p2: Seq<char>, s2: Seq<char>)
    requires
        p1.len() == p2.len(),
    ensures
        str_lt(p1 + s1, p2 + s2) == if p1 =~= p2 {
            str_lt(s1, s2)
        } else {
            str_lt(p1, p2)
        },
    decreases p1.len(),
{
    if p1.len() == 0 {
        assert(p1 + s1 =~= s1);
        assert(p2 + s2 =~= s2);
    } else {
        assert((p1 + s1)[0] == p1[0]);
        assert((p2 + s2)[0] == p2[0]);
        assert((p1 + s1).drop_first() =~= p1.drop_first() + s1);
        assert((p2 + s2).drop_first() =~= p2.drop_first() + s2);
        lemma_str_lt_split(p1.drop_first(), s1, p2.drop_first(), s2);
        if p1[0] == p2[0] {
            assert(p1 =~= p2 <==> p1.drop_first() =~= p2.drop_first()) by {
                if p1.drop_first() =~= p2.drop_first() {
                    assert(p1 =~= seq![p1[0]] + p1.drop_first());
                    assert(p2 =~= seq![p2[0]] + p2.drop_first());
                }
                if p1 =~= p2 {
                    assert(p1.drop_first() =~= p2.drop_first());
                }
            }
        }
    }
}

/// `p` is a prefix of `s`.
pub open spec fn has_prefix(s: Seq<char>, p: Seq<char>) -> bool {
    p.len() <= s.len() && s.take(p.len() as int) =~= p
}

/// `p` is a suffix of `s`.
pub open spec fn has_suffix(s: Seq<char>, p: Seq<char>) -> bool {
    p.len() <= s.len() && s.skip(s.len() - p.len()) =~= p
}

pub proof fn lemma_str_lt_irreflexive(a: Seq<char>)
    ensures
        !str_lt(a, a),
    decreases a.len(),
{
    if a.len() > 0 {
        lemma_str_lt_irreflexive(a.drop_first());
    }
}

pub proof fn lemma_str_lt_asymmetric(a: Seq<char>, b: Seq<char>)
    ensures
        !(str_lt(a, b) && str_lt(b, a)),
    decreases a.len(),
{
    if a.len() > 0 && b.len() > 0 && a[0] == b[0] {
        lemma_str_lt_asymmetric(a.drop_first(), b.drop_first());
    }
}

pub proof fn lemma_str_lt_transitive(a: Seq<char>, b: Seq<char>, c: Seq<char>)
    requires
        str_lt(a, b),
        str_lt(b, c),
    ensures
        str_lt(a, c),
    decreases a.len(),
{
    if a.len() > 0 && b.len() > 0 && c.len() > 0 && a[0] == b[0] && b[0] == c[0] {
        lemma_str_lt_transitive(a.drop_first(), b.drop_first(), c.drop_first());
    }
}

pub proof fn lemma_str_lt_total(a: Seq<char>, b: Seq<char>)
    ensures
        a =~= b || str_lt(a, b) || str_lt(b, a),
    decreases a.len(),
{
    if a.len() > 0 && b.len() > 0 && a[0] == b[0] {
        lemma_str_lt_total(a.drop_first(), b.drop_first());
        if a.drop_first() =~= b.drop_first() {
            assert(a =~= seq![a[0]] + a.drop_first());
            assert(b =~= seq![b[0]] + b.drop_first());
        }
    }
}

/// Compares two strings in `Ord for str` order.
pub fn str_less(a: &str, b: &str) -> (less: bool)
    ensures
        less == str_lt(a@, b@),
{
    let a_len = a.unicode_len();
    let b_len = b.unicode_len();
    let mut i: usize = 0;
    assert(a@.skip(0) =~= a@);
    assert(b@.skip(0) =~= b@);
    while i < a_len && i < b_len
        invariant
            a_len == a@.len(),
            b_len == b@.len(),
            i <= a_len,
            i <= b_len,
            a@.take(i as int) =~= b@.take(i as int),
            str_lt(a@, b@) == str_lt(a@.skip(i as int), b@.skip(i as int)),
        decreases a_len - i,
    {
        let ca = a.get_char(i);
        let cb = b.get_char(i);
        assert(a@.skip(i as int)[0] == ca);
        assert(b@.skip(i as int)[0] == cb);
        if ca != cb {
            return (ca as u32) < (cb as u32);
        }
        assert(a@.skip(i as int).drop_first() =~= a@.skip(i + 1));
        assert(b@.skip(i as int).drop_first() =~= b@.skip(i + 1));
        assert(a@.take(i + 1) =~= a@.take(i as int).push(ca));
        assert(b@.take(i + 1) =~= b@.take(i as int).push(cb));
        i += 1;
    }
    assert(a@.skip(i as int).len() == a_len - i);
    i < b_len
}

/// Whether `s` starts with `p`, as `str::starts_with` answers it.
pub fn starts_with(s: &str, p: &str) -> (yes: bool)
    ensures
        yes == has_prefix(s@, p@),
{
    let s_len = s.unicode_len();
    let p_len = p.unicode_len();
    if p_len > s_len {
        return false;
    }
    let mut i: usize = 0;
    while i < p_len
        invariant
            s_len == s@.len(),
            p_len == p@.len(),
            p_len <= s_len,
            i <= p_len,
            forall|j: int| 0 <= j < i ==> s@[j] == p@[j],
        decreases p_len - i,
    {
        if s.get_char(i) != p.get_char(i) {
            assert(s@.take(p_len as int)[i as int] != p@[i as int]);
            return false;
        }
        i += 1;
    }
    assert(s@.take(p_len as int) =~= p@);
    true
}

/// Whether `s` ends with `p`, as `str::ends_with` answers it.
pub fn ends_with(s: &str, p: &str) -> (yes: bool)
    ensures
        yes == has_suffix(s@, p@),
{
    let s_len = s.unicode_len();
    let p_len = p.unicode_len();
    if p_len > s_len {
        return false;
    }
    let offset = s_len - p_len;
    let mut i: usize = 0;
    while i < p_len
        invariant
            s_len == s@.len(),
            p_len == p@.len(),
            offset == s_len - p_len,
            i <= p_len,
            forall|j: int| 0 <= j < i ==> s@[offset + j] == p@[j],
        decreases p_len - i,
    {
        if s.get_char(offset + i) != p.get_char(i) {
            assert(s@.skip(offset as int)[i as int] != p@[i as int]);
            return false;
        }
        i += 1;
    }
    assert(s@.skip(offset as int) =~= p@);
    true
}

/// Whether `a` and `b` hold the same text.
pub fn same_text(a: &str, b: &str) -> (same: bool)
    ensures
        same == (a@ == b@),
{
    let same = a.unicode_len() == b.unicode_len() && starts_with(a, b);
    proof {
        if same {
            assert(a@ =~= a@.take(b@.len() as int));
        }
    }
    same
}

/// `a` followed by `b`.
pub fn concat(a: &str, b: &str) -> (joined: String)
    ensures
        joined@ == a@ + b@,
{
    let mut joined = String::from_str(a);
    joined.append(b);
    joined
}

/// The path `PathBuf::join` makes of a directory and a name on Unix: an
/// absolute name replaces the directory; otherwise a `/` separates them
/// unless the directory is empty or already ends with one.
pub open spec fn join_path(dir: Seq<char>, name: Seq<char>) -> Seq<char> {
    if name.len() > 0 && name[0] == '/' {
        name
    } else if dir.len() > 0 && dir.last() != '/' {
        dir + seq!['/'] + name
    } else {
        dir + name
    }
}

/// Joins a directory and a name as `Path::join` does on Unix.
pub fn join(dir: &str, name: &str) -> (path: String)
    ensures
        path@ == join_path(dir@, name@),
{
    let name_len = name.unicode_len();
    if name_len > 0 && name.get_char(0) == '/' {
        return String::from_str(name);
    }
    let dir_len = dir.unicode_len();
    let mut path = String::from_str(dir);
    if dir_len > 0 && dir.get_char(dir_len - 1) != '/' {
        proof {
            reveal_strlit("/");
        }
        path.append("/");
    }
    path.append(name);
    path
}

/// The characters of `s`.
pub fn chars_of(s: &str) -> (chars: Vec<char>)
    ensures
        chars@ == s@,
{
    broadcast use vstd::string::group_string_axioms;

    let mut chars: Vec<char> = Vec::new();
    for c in it: s.chars()
        invariant
            it.seq() == s@,
            chars@ == s@.take(it.index() as int),
    {
        chars.push(c);
    }
    assert(chars@ =~= s@.take(s@.len() as int));
    chars
}

/// Unicode `White_Space`, the whitespace of `char::is_whitespace` and
/// `str::trim`.
pub open spec fn is_whitespace(c: char) -> bool {
    let u = c as int;
    ||| 0x9 <= u <= 0xd
    ||| u == 0x20
    ||| u == 0x85
    ||| u == 0xa0
    ||| u == 0x1680
    ||| 0x2000 <= u <= 0x200a
    ||| u == 0x2028
    ||| u == 0x2029
    ||| u == 0x202f
    ||| u == 0x205f
    ||| u == 0x3000
}

/// `s` without its leading whitespace.
pub open spec fn trim_start(s: Seq<char>) -> Seq<char>
    decreases s.len(),
{
    if s.len() > 0 && is_whitespace(s[0]) {
        trim_start(s.drop_first())
    } else {
        s
    }
}

/// `s` without its trailing whitespace.
pub open spec fn trim_end(s: Seq<char>) -> Seq<char>
    decreases s.len(),
{
    if s.len() > 0 && is_whitespace(s.last()) {
        trim_end(s.drop_last())
    } else {
        s
    }
}

/// `str::trim`: `s` without leading and trailing whitespace.
pub open spec fn trim(s: Seq<char>) -> Seq<char> {
    trim_end(trim_start(s))
}

/// `str::trim_start_matches(c)` for a single character `c`: `s` without
/// its leading `c` characters.
pub open spec fn trim_start_char(s: Seq<char>, c: char) -> Seq<char>
    decreases s.len(),
{
    if s.len() > 0 && s[0] == c {
        trim_start_char(s.drop_first(), c)
    } else {
        s
    }
}

/// `trim_start` of a string with one more character at its end: the
/// character joins what was left, or is all that is left, or goes too.
pub proof fn lemma_trim_start_push(s: Seq<char>, c: char)
    ensures
        trim_start(s.push(c)) == if trim_start(s).len() > 0 {
            trim_start(s).push(c)
        } else if is_whitespace(c) {
            Seq::<char>::empty()
        } else {
            seq![c]
        },
    decreases s.len(),
{
    if s.len() == 0 {
        assert(s.push(c) =~= seq![c]);
        assert(seq![c].drop_first() =~= Seq::<char>::empty());
        assert(trim_start(Seq::<char>::empty()) == Seq::<char>::empty());
    } else if is_whitespace(s[0]) {
        assert(s.push(c).drop_first() =~= s.drop_first().push(c));
        lemma_trim_start_push(s.drop_first(), c);
    } else {
        assert(s.push(c)[0] == s[0]);
    }
}

/// Whitespace at the end of a string does not survive `trim`.
pub proof fn lemma_trim_drops_trailing_whitespace(s: Seq<char>, c: char)
    requires
        is_whitespace(c),
    ensures
        trim(s.push(c)) == trim(s),
{
    lemma_trim_start_push(s, c);
    if trim_start(s).len() > 0 {
        assert(trim_start(s).push(c).drop_last() =~= trim_start(s));
    }
}

/// What `trim_end` leaves does not end in whitespace.
pub proof fn lemma_trim_end_ends_in_text(s: Seq<char>)
    ensures
        trim_end(s).len() > 0 ==> !is_whitespace(trim_end(s).last()),
    decreases s.len(),
{
    if s.len() > 0 && is_whitespace(s.last()) {
        lemma_trim_end_ends_in_text(s.drop_last());
    }
}

/// `trim_start_char` only takes characters off the front: what it leaves
/// ends as the string does.
pub proof fn lemma_trim_start_char_keeps_last(s: Seq<char>, c: char)
    ensures
        trim_start_char(s, c).len() > 0 ==> trim_start_char(s, c).last() == s.last(),
    decreases s.len(),
{
    if s.len() > 0 && s[0] == c {
        lemma_trim_start_char_keeps_last(s.drop_first(), c);
    }
}

/// What `trim_start_char` leaves does not start with the character.
pub proof fn lemma_trim_start_char_leaves_no_lead(s: Seq<char>, c: char)
    ensures
        trim_start_char(s, c).len() == 0 || trim_start_char(s, c)[0] != c,
    decreases s.len(),
{
    if s.len() > 0 && s[0] == c {
        lemma_trim_start_char_leaves_no_lead(s.drop_first(), c);
    }
}

pub fn is_whitespace_char(c: char) -> (ws: bool)
    ensures
        ws == is_whitespace(c),
{
    let u = c as u32;
    (0x9 <= u && u <= 0xd) || u == 0x20 || u == 0x85 || u == 0xa0 || u == 0x1680 || (0x2000 <= u
        && u <= 0x200a) || u == 0x2028 || u == 0x2029 || u == 0x202f || u == 0x205f || u == 0x3000
}

/// Bounds of the whitespace-trimmed part of `chars[from..to]`.
pub fn trim_range(chars: &Vec<char>, from: usize, to: usize) -> (bounds: (usize, usize))
    requires
        from <= to <= chars@.len(),
    ensures
        from <= bounds.0 <= bounds.1 <= to,
        chars@.subrange(bounds.0 as int, bounds.1 as int) == trim(
            chars@.subrange(from as int, to as int),
        ),
{
    let mut start = from;
    while start < to && is_whitespace_char(chars[start])
        invariant
            from <= start <= to <= chars@.len(),
            trim_start(chars@.subrange(from as int, to as int)) == trim_start(
                chars@.subrange(start as int, to as int),
            ),
        decreases to - start,
    {
        assert(chars@.subrange(start as int, to as int).drop_first() =~= chars@.subrange(
            start + 1,
            to as int,
        ));
        start += 1;
    }
    assert(trim_start(chars@.subrange(start as int, to as int)) == chars@.subrange(
        start as int,
        to as int,
    ));
    let mut end = to;
    while end > start && is_whitespace_char(chars[end - 1])
        invariant
            from <= start <= end <= to <= chars@.len(),
            trim_end(chars@.subrange(start as int, to as int)) == trim_end(
                chars@.subrange(start as int, end as int),
            ),
        decreases end - start,
    {
        assert(chars@.subrange(start as int, end as int).drop_last() =~= chars@.subrange(
            start as int,
            end - 1,
        ));
        end -= 1;
    }
    assert(trim_end(chars@.subrange(start as int, end as int)) == chars@.subrange(
        start as int,
        end as int,
    ));
    (start, end)
}

/// Start of `chars[from..to]` once its leading `c` characters are dropped.
pub fn trim_start_char_range(chars: &Vec<char>, from: usize, to: usize, c: char) -> (start: usize)
    requires
        from <= to <= chars@.len(),
    ensures
        from <= start <= to,
        chars@.subrange(start as int, to as int) == trim_start_char(
            chars@.subrange(from as int, to as int),
            c,
        ),
{
    let mut start = from;
    while start < to && chars[start] == c
        invariant
            from <= start <= to <= chars@.len(),
            trim_start_char(chars@.subrange(from as int, to as int), c) == trim_start_char(
                chars@.subrange(start as int, to as int),
                c,
            ),
        decreases to - start,
    {
        assert(chars@.subrange(start as int, to as int).drop_first() =~= chars@.subrange(
            start + 1,
            to as int,
        ));
        start += 1;
    }
    start
}

/// The ASCII digit of `d < 10`.
pub open spec fn digit_char(d: nat) -> char {
    ((('0' as int) + d) as u32) as char
}

/// `n` written in decimal, as `format!("{n}")` writes it.
pub open spec fn decimal(n: nat) -> Seq<char>
    decreases n,
{
    if n < 10 {
        seq![digit_char(n)]
    } else {
        decimal(n / 10) + seq![digit_char(n % 10)]
    }
}

/// The decimal digits of `n` before its last one: empty for `n < 10`.
spec fn decimal_head(n: nat) -> Seq<char> {
    if n == 0 {
        Seq::empty()
    } else {
        decimal(n)
    }
}

/// The digit characters of `digits`, in order.
spec fn digit_text(digits: Seq<u8>) -> Seq<char> {
    digits.map_values(|d: u8| digit_char(d as nat))
}

/// Writes `n` in decimal.
pub fn decimal_string(n: u64) -> (text: String)
    ensures
        text@ == decimal(n as nat),
{
    // Digits, most significant first.
    let mut digits: Vec<u8> = Vec::new();
    digits.push((n % 10) as u8);
    let mut m = n / 10;
    assert(decimal(n as nat) =~= decimal_head(m as nat) + digit_text(digits@));
    while m > 0
        invariant
            decimal(n as nat) =~= decimal_head(m as nat) + digit_text(digits@),
            forall|i: int| 0 <= i < digits@.len() ==> digits@[i] < 10,
        decreases m,
    {
        let d = (m % 10) as u8;
        let ghost old_digits = digits@;
        digits.insert(0, d);
        assert(digit_text(digits@) =~= seq![digit_char(d as nat)] + digit_text(old_digits));
        assert(decimal_head(m as nat) == decimal_head((m / 10) as nat) + seq![digit_char(d as nat)]);
        m = m / 10;
    }
    let table = "0123456789";
    proof {
        reveal_strlit("0123456789");
        assert(table@.len() == 10);
        assert forall|j: int| 0 <= j < 10 implies table@[j] == digit_char(j as nat) by {
            assert(table@ == seq!['0', '1', '2', '3', '4', '5', '6', '7', '8', '9']);
        }
    }
    let mut text = String::new();
    let mut i: usize = 0;
    while i < digits.len()
        invariant
            i <= digits@.len(),
            table@.len() == 10,
            forall|j: int| 0 <= j < 10 ==> table@[j] == digit_char(j as nat),
            forall|j: int| 0 <= j < digits@.len() ==> digits@[j] < 10,
            text@ =~= digit_text(digits@.take(i as int)),
        decreases digits@.len() - i,
    {
        let d = digits[i] as usize;
        let piece = table.substring_char(d, d + 1);
        assert(piece@ =~= seq![digit_char(d as nat)]);
        text.append(piece);
        assert(digit_text(digits@.take(i + 1)) =~= digit_text(digits@.take(i as int)) + seq![
            digit_char(d as nat),
        ]);
        i += 1;
    }
    assert(digits@.take(digits@.len() as int) =~= digits@);
    assert(decimal_head(0) =~= Seq::<char>::empty());
    text
}

/// The UTF-8 bytes of `s`.
pub fn utf8_bytes(s: &str) -> (bytes: Vec<u8>)
    ensures
        bytes@ == encode_utf8(s@),
{
    s.as_bytes_vec()
}

/// A copy of `bytes`.
pub fn copy_bytes(bytes: &Vec<u8>) -> (copy: Vec<u8>)
    ensures
        copy@ == bytes@,
{
    let mut copy: Vec<u8> = Vec::new();
    let mut i: usize = 0;
    while i < bytes.len()
        invariant
            i <= bytes@.len(),
            copy@ == bytes@.take(i as int),
        decreases bytes@.len() - i,
    {
        copy.push(bytes[i]);
        assert(bytes@.take(i + 1) =~= bytes@.take(i as int).push(bytes@[i as int]));
        i += 1;
    }
    assert(bytes@.take(bytes@.len() as int) =~= bytes@);
    copy
}

} // verus!
