use vstd::prelude::*;
use vstd::string::StrSliceExecFns;
use vstd::string::StringExecFns;

verus! {

/// True for the four whitespace characters the key-value format treats
/// as insignificant between tokens.
pub open spec fn is_ws(c: char) -> bool {
    c == ' ' || c == '\t' || c == '\n' || c == '\r'
}

/// Exec mirror of `is_ws`.
pub fn is_ws_char(c: char) -> (r: bool)
    ensures
        r == is_ws(c),
{
    c == ' ' || c == '\t' || c == '\n' || c == '\r'
}

/// Relies on `String::from_iter` over `char`: the returned string holds
/// exactly the characters of `v`, in order.
#[verifier::external_body]
pub fn chars_to_string(v: &Vec<char>) -> (r: String)
    ensures
        r@ == v@,
{
    v.iter().collect()
}

/// Collects the characters of a string slice into a vector.
pub fn str_to_chars(s: &str) -> (r: Vec<char>)
    ensures
        r@ == s@,
{
    let n = s.unicode_len();
    let mut v: Vec<char> = Vec::new();
    let mut i: usize = 0;
    while i < n
        invariant
            i <= n,
            n == s@.len(),
            v@ == s@.subrange(0, i as int),
        decreases n - i,
    {
        v.push(s.get_char(i));
        i = i + 1;
        proof {
            assert(v@ =~= s@.subrange(0, i as int));
        }
    }
    proof {
        assert(v@ =~= s@);
    }
    v
}

/// Decimal digit character for a value below ten.
pub open spec fn digit_char(d: nat) -> char
    recommends
        d < 10,
{
    ((48 + d) as u8) as char
}

/// Decimal representation of a natural number, most significant digit first.
pub open spec fn dec_str(n: nat) -> Seq<char>
    decreases n,
{
    if n < 10 {
        seq![digit_char(n)]
    } else {
        dec_str(n / 10).push(digit_char(n % 10))
    }
}

fn digit_char_exec(d: u64) -> (c: char)
    requires
        d < 10,
    ensures
        c == digit_char(d as nat),
{
    ((48 + d) as u8) as char
}

fn u64_digits(n: u64) -> (v: Vec<char>)
    ensures
        v@ == dec_str(n as nat),
    decreases n,
{
    if n < 10 {
        let mut v: Vec<char> = Vec::new();
        v.push(digit_char_exec(n));
        proof {
            assert(v@ =~= dec_str(n as nat));
        }
        v
    } else {
        let mut v = u64_digits(n / 10);
        v.push(digit_char_exec(n % 10));
        proof {
            assert(v@ =~= dec_str(n as nat));
        }
        v
    }
}

/// Renders a 64-bit number in decimal.
pub fn u64_to_string(n: u64) -> (r: String)
    ensures
        r@ == dec_str(n as nat),
{
    let v = u64_digits(n);
    chars_to_string(&v)
}

/// Renders a 32-bit number in decimal.
pub fn u32_to_string(n: u32) -> (r: String)
    ensures
        r@ == dec_str(n as nat),
{
    u64_to_string(n as u64)
}

/// True when every character of `s` is a decimal digit.
pub open spec fn all_digits(s: Seq<char>) -> bool {
    forall|i: int| 0 <= i < s.len() ==> '0' <= #[trigger] s[i] <= '9'
}

/// Numeric value of a digit string, read left to right.
pub open spec fn digits_val(s: Seq<char>) -> nat
    decreases s.len(),
{
    if s.len() == 0 {
        0
    } else {
        (digits_val(s.drop_last()) * 10 + (s.last() as int - 48)) as nat
    }
}

/// Parses an unsigned decimal number.  Returns `None` when the string is
/// empty, holds a non-digit, or the value does not fit in 64 bits.
pub fn parse_u64(s: &str) -> (r: Option<u64>)
    ensures
        match r {
            Some(v) => s@.len() > 0 && all_digits(s@) && digits_val(s@) == v as nat,
            None => s@.len() == 0 || !all_digits(s@) || digits_val(s@) > u64::MAX,
        },
{
    let n = s.unicode_len();
    if n == 0 {
        return None;
    }
    let mut acc: u64 = 0;
    let mut i: usize = 0;
    while i < n
        invariant
            i <= n,
            n == s@.len(),
            all_digits(s@.subrange(0, i as int)),
            acc as nat == digits_val(s@.subrange(0, i as int)),
        decreases n - i,
    {
        let c = s.get_char(i);
        if c < '0' || c > '9' {
            proof {
                assert(s@[i as int] == c);
            }
            return None;
        }
        let d: u64 = (c as u32 as u64) - 48;
        let acc10 = match acc.checked_mul(10) {
            Some(x) => x,
            None => {
                proof {
                    if all_digits(s@) {
                        lemma_digits_val_prefix_le(s@, i + 1);
                        assert(s@.subrange(0, i + 1).drop_last() =~= s@.subrange(0, i as int));
                        assert(s@.subrange(0, i + 1).last() == c);
                    }
                }
                return None;
            },
        };
        let acc2 = match acc10.checked_add(d) {
            Some(x) => x,
            None => {
                proof {
                    if all_digits(s@) {
                        lemma_digits_val_prefix_le(s@, i + 1);
                        assert(s@.subrange(0, i + 1).drop_last() =~= s@.subrange(0, i as int));
                        assert(s@.subrange(0, i + 1).last() == c);
                    }
                }
                return None;
            },
        };
        proof {
            assert(s@.subrange(0, i + 1).drop_last() =~= s@.subrange(0, i as int));
            assert(s@.subrange(0, i + 1).last() == c);
        }
        acc = acc2;
        i = i + 1;
    }
    proof {
        assert(s@.subrange(0, n as int) =~= s@);
    }
    Some(acc)
}

/// The value of a digit string only grows as more digits are appended.
proof fn lemma_digits_val_prefix_le(s: Seq<char>, j: int)
    requires
        0 < j <= s.len(),
        all_digits(s),
    ensures
        digits_val(s.subrange(0, j)) <= digits_val(s),
    decreases s.len() - j,
{
    if j == s.len() {
        assert(s.subrange(0, j) =~= s);
    } else {
        lemma_digits_val_prefix_le(s, j + 1);
        let t = s.subrange(0, j + 1);
        assert(t.drop_last() =~= s.subrange(0, j));
        assert('0' <= t.last() <= '9');
    }
}

/// Parses an unsigned decimal number into 32 bits.
pub fn parse_u32(s: &str) -> (r: Option<u32>)
    ensures
        match r {
            Some(v) => s@.len() > 0 && all_digits(s@) && digits_val(s@) == v as nat,
            None => s@.len() == 0 || !all_digits(s@) || digits_val(s@) > u32::MAX,
        },
{
    match parse_u64(s) {
        Some(v) => {
            if v <= 0xFFFF_FFFF {
                Some(v as u32)
            } else {
                None
            }
        },
        None => {
            proof {
                if s@.len() > 0 && all_digits(s@) && digits_val(s@) <= u32::MAX {
                    assert(digits_val(s@) <= u64::MAX);
                }
            }
            None
        },
    }
}

/// What `str::to_lowercase` returns for a character sequence, named: the
/// Unicode fold depends on the characters alone, so the same sequence
/// always folds to the same result.
pub uninterp spec fn lower_of(s: Seq<char>) -> Seq<char>;

/// Relies on str::to_lowercase: the Unicode lowercase fold, a function of
/// the characters alone.
#[verifier::external_body]
pub(crate) fn lowercase(s: &str) -> (r: String)
    ensures
        r@ == lower_of(s@),
{
    s.to_lowercase()
}

/// `needle` occurs in `hay` starting at position `i`.
pub open spec fn matches_at(hay: Seq<char>, needle: Seq<char>, i: int) -> bool {
    0 <= i && i + needle.len() <= hay.len() && hay.subrange(i, i + needle.len()) == needle
}

/// `needle` occurs somewhere in `hay`.
pub open spec fn contains_seq(hay: Seq<char>, needle: Seq<char>) -> bool {
    exists|i: int| matches_at(hay, needle, i)
}

fn eq_at(hay: &str, needle: &str, i: usize) -> (r: bool)
    requires
        i + needle@.len() <= hay@.len(),
    ensures
        r == matches_at(hay@, needle@, i as int),
{
    let hn = hay.unicode_len();
    let m = needle.unicode_len();
    let mut j: usize = 0;
    while j < m
        invariant
            j <= m,
            m == needle@.len(),
            hn == hay@.len(),
            i + m <= hn,
            forall|k: int| 0 <= k < j ==> hay@[i + k] == needle@[k],
        decreases m - j,
    {
        if hay.get_char(i + j) != needle.get_char(j) {
            proof {
                assert(hay@.subrange(i as int, i + needle@.len())[j as int] == hay@[i + j]);
            }
            return false;
        }
        j = j + 1;
    }
    proof {
        assert(hay@.subrange(i as int, i + needle@.len()) =~= needle@);
    }
    true
}

/// Substring test.
pub fn str_contains(hay: &str, needle: &str) -> (r: bool)
    ensures
        r == contains_seq(hay@, needle@),
{
    let n = hay.unicode_len();
    let m = needle.unicode_len();
    if m > n {
        proof {
            assert(forall|i: int| !matches_at(hay@, needle@, i));
        }
        return false;
    }
    if m == 0 {
        proof {
            assert(hay@.subrange(0, 0) =~= needle@);
            assert(matches_at(hay@, needle@, 0));
        }
        return true;
    }
    let mut i: usize = 0;
    while i <= n - m
        invariant
            0 < m <= n,
            n == hay@.len(),
            m == needle@.len(),
            i <= n - m + 1,
            forall|k: int| 0 <= k < i ==> !matches_at(hay@, needle@, k),
        decreases n - i,
    {
        if eq_at(hay, needle, i) {
            return true;
        }
        i = i + 1;
    }
    proof {
        assert(forall|k: int| matches_at(hay@, needle@, k) ==> 0 <= k <= n - m);
    }
    false
}

/// `p` is a prefix of `s`.
pub open spec fn is_prefix(s: Seq<char>, p: Seq<char>) -> bool {
    p.len() <= s.len() && s.subrange(0, p.len() as int) == p
}

/// Prefix test.
pub fn starts_with(s: &str, p: &str) -> (r: bool)
    ensures
        r == is_prefix(s@, p@),
{
    if p.unicode_len() > s.unicode_len() {
        return false;
    }
    eq_at(s, p, 0)
}

/// The sequence with leading whitespace removed.
pub open spec fn trim_front(s: Seq<char>) -> Seq<char>
    decreases s.len(),
{
    if s.len() > 0 && is_ws(s[0]) {
        trim_front(s.drop_first())
    } else {
        s
    }
}

/// The sequence with trailing whitespace removed.
pub open spec fn trim_back(s: Seq<char>) -> Seq<char>
    decreases s.len(),
{
    if s.len() > 0 && is_ws(s.last()) {
        trim_back(s.drop_last())
    } else {
        s
    }
}

/// The sequence with whitespace removed at both ends.
pub open spec fn spec_trim(s: Seq<char>) -> Seq<char> {
    trim_back(trim_front(s))
}

proof fn lemma_trim_front_subrange(s: Seq<char>, a: int)
    requires
        0 <= a <= s.len(),
        forall|i: int| 0 <= i < a ==> is_ws(s[i]),
    ensures
        trim_front(s) == trim_front(s.subrange(a, s.len() as int)),
    decreases a,
{
    if a > 0 {
        assert(is_ws(s[0]));
        assert(s.drop_first() =~= s.subrange(1, s.len() as int));
        lemma_trim_front_subrange(s.drop_first(), a - 1);
        assert(s.drop_first().subrange(a - 1, s.drop_first().len() as int) =~= s.subrange(
            a,
            s.len() as int,
        ));
    } else {
        assert(s.subrange(0, s.len() as int) =~= s);
    }
}

proof fn lemma_trim_back_subrange(s: Seq<char>, b: int)
    requires
        0 <= b <= s.len(),
        forall|i: int| b <= i < s.len() ==> is_ws(s[i]),
    ensures
        trim_back(s) == trim_back(s.subrange(0, b)),
    decreases s.len() - b,
{
    if b < s.len() {
        assert(is_ws(s.last()));
        assert(s.drop_last() =~= s.subrange(0, s.len() - 1));
        lemma_trim_back_subrange(s.drop_last(), b);
        assert(s.drop_last().subrange(0, b) =~= s.subrange(0, b));
    } else {
        assert(s.subrange(0, b) =~= s);
    }
}

/// Removes whitespace from both ends of a string.
pub fn trim(s: &str) -> (r: &str)
    ensures
        r@ == spec_trim(s@),
{
    let n = s.unicode_len();
    let mut a: usize = 0;
    while a < n && is_ws_char(s.get_char(a))
        invariant
            a <= n,
            n == s@.len(),
            forall|i: int| 0 <= i < a ==> is_ws(s@[i]),
        decreases n - a,
    {
        a = a + 1;
    }
    if a == n {
        proof {
            lemma_trim_front_subrange(s@, a as int);
            assert(s@.subrange(n as int, n as int) =~= Seq::<char>::empty());
            assert(trim_front(s@).len() == 0);
        }
        let r = s.substring_char(n, n);
        proof {
            assert(r@ =~= spec_trim(s@));
        }
        return r;
    }
    let mut b: usize = n;
    while b > a && is_ws_char(s.get_char(b - 1))
        invariant
            a <= b <= n,
            n == s@.len(),
            forall|i: int| b <= i < n ==> is_ws(s@[i]),
        decreases b,
    {
        b = b - 1;
    }
    let r = s.substring_char(a, b);
    proof {
        lemma_trim_front_subrange(s@, a as int);
        let t = s@.subrange(a as int, n as int);
        assert(trim_front(s@) == trim_front(t));
        assert(!is_ws(t[0]));
        assert(trim_front(t) == t);
        lemma_trim_back_subrange(t, b - a);
        assert(t.subrange(0, b - a) =~= s@.subrange(a as int, b as int));
        if b > a {
            assert(!is_ws(s@.subrange(a as int, b as int).last()));
        }
        assert(trim_back(s@.subrange(a as int, b as int)) == s@.subrange(a as int, b as int));
    }
    r
}

/// Whether a vector of strings holds a string with this view.
pub open spec fn seq_contains_str(v: Seq<String>, s: Seq<char>) -> bool {
    exists|i: int| 0 <= i < v.len() && v[i]@ == s
}

/// Membership test on a vector of strings.
pub fn vec_contains(v: &Vec<String>, s: &str) -> (r: bool)
    ensures
        r == seq_contains_str(v@, s@),
{
    let mut i: usize = 0;
    while i < v.len()
        invariant
            i <= v@.len(),
            forall|j: int| 0 <= j < i ==> v@[j]@ != s@,
        decreases v@.len() - i,
    {
        if str_eq(&v[i], s) {
            return true;
        }
        i = i + 1;
    }
    false
}

/// String equality by characters.
pub fn str_eq(a: &str, b: &str) -> (r: bool)
    ensures
        r == (a@ == b@),
{
    if a.unicode_len() != b.unicode_len() {
        return false;
    }
    let r = eq_at(a, b, 0);
    proof {
        if r {
            assert(a@.subrange(0, b@.len() as int) =~= a@);
        } else {
            if a@ == b@ {
                assert(a@.subrange(0, b@.len() as int) =~= b@);
            }
        }
    }
    r
}

/// Joins two path components with a single separator.
pub fn path_join(base: &str, rest: &str) -> (r: String)
    ensures
        r@ == base@ + "/"@ + rest@,
{
    let mut s = String::from_str(base);
    s.append("/");
    s.append(rest);
    s
}

/// Concatenates two strings.
pub fn str_concat(a: &str, b: &str) -> (r: String)
    ensures
        r@ == a@ + b@,
{
    let mut s = String::from_str(a);
    s.append(b);
    s
}

} // verus!

verus! {

/// First position at or after `i` holding `c`, or the length if none.
pub open spec fn find_char(s: Seq<char>, c: char, i: int) -> int
    decreases s.len() - i,
{
    if 0 <= i < s.len() {
        if s[i] == c {
            i
        } else {
            find_char(s, c, i + 1)
        }
    } else {
        s.len() as int
    }
}

/// The pieces of `s` between occurrences of `c`, from position `i` on.
pub open spec fn split_from(s: Seq<char>, c: char, i: int) -> Seq<Seq<char>>
    decreases s.len() - i,
{
    let j0 = find_char(s, c, i);
    let j = if j0 >= i {
        j0
    } else {
        i
    };
    if j >= s.len() {
        seq![s.subrange(i, s.len() as int)]
    } else {
        seq![s.subrange(i, j)] + split_from(s, c, j + 1)
    }
}

/// The pieces of `s` between occurrences of `c`.
pub open spec fn spec_split(s: Seq<char>, c: char) -> Seq<Seq<char>> {
    split_from(s, c, 0)
}

proof fn lemma_find_char_props(s: Seq<char>, c: char, i: int)
    requires
        0 <= i <= s.len(),
    ensures
        i <= find_char(s, c, i) <= s.len(),
        find_char(s, c, i) < s.len() ==> s[find_char(s, c, i)] == c,
        forall|k: int| i <= k < find_char(s, c, i) ==> s[k] != c,
    decreases s.len() - i,
{
    if i < s.len() && s[i] != c {
        lemma_find_char_props(s, c, i + 1);
    }
}

/// Splits a string at every occurrence of a character; `n` separators
/// yield `n + 1` pieces, empty pieces kept.
pub fn split_char(s: &str, c: char) -> (r: Vec<String>)
    ensures
        r.deep_view() == spec_split(s@, c),
{
    let cs = str_to_chars(s);
    let n = cs.len();
    let mut out: Vec<String> = Vec::new();
    let mut pos: usize = 0;
    proof {
        assert(out.deep_view() =~= Seq::<Seq<char>>::empty());
        assert(Seq::<Seq<char>>::empty() + split_from(s@, c, 0) =~= spec_split(s@, c));
    }
    loop
        invariant_except_break
            out.deep_view() + split_from(s@, c, pos as int) == spec_split(s@, c),
        invariant
            pos <= n,
            n == s@.len(),
            cs@ == s@,
        ensures
            out.deep_view() == spec_split(s@, c),
        decreases n - pos + 1,
    {
        let mut j = pos;
        while j < n && cs[j] != c
            invariant
                pos <= j <= n,
                n == s@.len(),
                cs@ == s@,
                find_char(s@, c, pos as int) == find_char(s@, c, j as int),
            decreases n - j,
        {
            j = j + 1;
        }
        proof {
            lemma_find_char_props(s@, c, j as int);
            assert(find_char(s@, c, pos as int) == j as int);
        }
        let ghost before = out.deep_view();
        let piece = subvec_chars_pub(&cs, pos, j);
        out.push(chars_to_string(&piece));
        proof {
            assert(out.deep_view() =~= before.push(s@.subrange(pos as int, j as int)));
        }
        if j == n {
            proof {
                assert(split_from(s@, c, pos as int) == seq![s@.subrange(pos as int, n as int)]);
                assert(out.deep_view() =~= spec_split(s@, c));
            }
            break ;
        }
        proof {
            assert(split_from(s@, c, pos as int) == seq![s@.subrange(pos as int, j as int)]
                + split_from(s@, c, j + 1));
            assert(out.deep_view() + split_from(s@, c, j + 1) =~= before + (seq![
                s@.subrange(pos as int, j as int),
            ] + split_from(s@, c, j + 1)));
        }
        pos = j + 1;
    }
    out
}

/// Collects a range of a character vector.
pub fn subvec_chars_pub(s: &Vec<char>, a: usize, b: usize) -> (v: Vec<char>)
    requires
        a <= b <= s@.len(),
    ensures
        v@ == s@.subrange(a as int, b as int),
{
    let mut v: Vec<char> = Vec::new();
    let mut i: usize = a;
    while i < b
        invariant
            a <= i <= b <= s@.len(),
            v@ == s@.subrange(a as int, i as int),
        decreases b - i,
    {
        v.push(s[i]);
        i = i + 1;
        proof {
            assert(v@ =~= s@.subrange(a as int, i as int));
        }
    }
    v
}

/// The lines of a text, split at line feeds.
pub fn split_lines(s: &str) -> (r: Vec<String>)
    ensures
        r.deep_view() == spec_split(s@, '\n'),
{
    split_char(s, '\n')
}

/// End of the first token: the first position holding a dash or a space.
pub open spec fn token_end(s: Seq<char>) -> int {
    let d = find_char(s, '-', 0);
    let sp = find_char(s, ' ', 0);
    if d < sp {
        d
    } else {
        sp
    }
}

/// The first token of a version label: everything up to the first dash
/// or space.
pub open spec fn spec_first_token(s: Seq<char>) -> Seq<char> {
    s.subrange(0, token_end(s))
}

/// Takes the first dash- or space-separated token.
pub fn first_token(s: &str) -> (r: &str)
    ensures
        r@ == spec_first_token(s@),
{
    let n = s.unicode_len();
    let mut j: usize = 0;
    while j < n && s.get_char(j) != '-' && s.get_char(j) != ' '
        invariant
            j <= n,
            n == s@.len(),
            find_char(s@, '-', 0) == find_char(s@, '-', j as int),
            find_char(s@, ' ', 0) == find_char(s@, ' ', j as int),
            forall|k: int| 0 <= k < j ==> s@[k] != '-' && s@[k] != ' ',
        decreases n - j,
    {
        j = j + 1;
    }
    proof {
        lemma_find_char_props(s@, '-', j as int);
        lemma_find_char_props(s@, ' ', j as int);
        if j < s@.len() {
            if s@[j as int] == '-' {
                assert(find_char(s@, '-', j as int) == j as int);
            } else {
                assert(find_char(s@, ' ', j as int) == j as int);
            }
        }
        assert(token_end(s@) == j as int);
    }
    s.substring_char(0, j)
}

/// The label with every leading repetition of the runtime-family name
/// removed.
pub open spec fn strip_protons(s: Seq<char>) -> Seq<char>
    decreases s.len(),
{
    if s.len() >= 6 && is_prefix(s, "Proton"@) && "Proton"@.len() == 6 {
        strip_protons(s.subrange(6, s.len() as int))
    } else {
        s
    }
}

/// Removes every leading repetition of the runtime-family name.
pub fn strip_proton_prefix(s: &str) -> (r: String)
    ensures
        r@ == strip_protons(s@),
{
    proof {
        reveal_strlit("Proton");
    }
    let mut cur = String::from_str(s);
    loop
        invariant
            strip_protons(s@) == strip_protons(cur@),
        ensures
            cur@ == strip_protons(s@),
        decreases cur@.len(),
    {
        let keep = cur.as_str().unicode_len() >= 6 && starts_with(cur.as_str(), "Proton");
        if !keep {
            proof {
                assert(strip_protons(cur@) == cur@);
            }
            break ;
        }
        let next = cur.as_str().substring_char(6, cur.as_str().unicode_len());
        let nx = String::from_str(next);
        proof {
            reveal_strlit("Proton");
            assert(strip_protons(cur@) == strip_protons(nx@));
        }
        cur = nx;
    }
    cur
}

} // verus!
