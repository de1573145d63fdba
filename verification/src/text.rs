use vstd::prelude::*;

verus! {

/// ASCII lower-casing of one character; other characters are left as they are.
pub open spec fn ascii_lower(c: char) -> char {
    if 'A' <= c && c <= 'Z' {
        ((c as u32) + 32) as char
    } else {
        c
    }
}

/// ASCII lower-casing of a whole text.
pub open spec fn ascii_lower_seq(s: Seq<char>) -> Seq<char> {
    s.map_values(|c: char| ascii_lower(c))
}

/// Equality of two texts when ASCII letters are compared without regard to case.
pub open spec fn eq_ignore_ascii_case_spec(a: Seq<char>, b: Seq<char>) -> bool {
    a.len() == b.len() && forall|i: int| 0 <= i < a.len() ==> ascii_lower(#[trigger] a[i]) == ascii_lower(b[i])
}

/// ASCII lower-casing of one character.
pub fn to_ascii_lower(c: char) -> (r: char)
    ensures
        r == ascii_lower(c),
{
    if 'A' <= c && c <= 'Z' {
        let b = (c as u8) + 32;
        b as char
    } else {
        c
    }
}

/// Compares two texts, ASCII letters without regard to case.
pub fn eq_ignore_ascii_case(a: &str, b: &str) -> (r: bool)
    ensures
        r == eq_ignore_ascii_case_spec(a@, b@),
{
    let n = a.unicode_len();
    if n != b.unicode_len() {
        return false;
    }
    let mut i: usize = 0;
    while i < n
        invariant
            n == a@.len(),
            n == b@.len(),
            i <= n,
            forall|j: int| 0 <= j < i ==> ascii_lower(#[trigger] a@[j]) == ascii_lower(b@[j]),
        decreases n - i,
    {
        if to_ascii_lower(a.get_char(i)) != to_ascii_lower(b.get_char(i)) {
            return false;
        }
        i = i + 1;
    }
    true
}

/// ASCII lower-casing of a text.
pub fn ascii_lowercase(s: &str) -> (r: String)
    ensures
        r@ == ascii_lower_seq(s@),
{
    let n = s.unicode_len();
    let mut r = String::new();
    let mut i: usize = 0;
    while i < n
        invariant
            n == s@.len(),
            i <= n,
            r@ == ascii_lower_seq(s@.subrange(0, i as int)),
        decreases n - i,
    {
        push_char(&mut r, to_ascii_lower(s.get_char(i)));
        i = i + 1;
        proof {
            assert(ascii_lower_seq(s@.subrange(0, i as int)) =~= ascii_lower_seq(s@.subrange(0, i - 1)).push(ascii_lower(s@[i - 1])));
        }
    }
    proof {
        assert(s@.subrange(0, n as int) =~= s@);
    }
    r
}

/// Calls `String::push`.  The contract claims that the text afterwards is the text before
/// with `c` added at its end.
#[verifier::external_body]
pub(crate) fn push_char(s: &mut String, c: char)
    ensures
        final(s)@ == old(s)@.push(c),
{
    s.push(c);
}

/// `needle` occurs in `hay` as a contiguous piece.
pub open spec fn contains_piece(hay: Seq<char>, needle: Seq<char>) -> bool {
    exists|i: int| 0 <= i <= hay.len() - needle.len() && #[trigger] hay.subrange(i, i + needle.len()) == needle
}

/// Whether `needle` occurs in `hay` starting at position `i`.
fn matches_at(hay: &str, needle: &str, i: usize) -> (r: bool)
    requires
        i + needle@.len() <= hay@.len(),
    ensures
        r == (hay@.subrange(i as int, i + needle@.len()) == needle@),
{
    let m = needle.unicode_len();
    let n = hay.unicode_len();
    let mut j: usize = 0;
    while j < m
        invariant
            m == needle@.len(),
            n == hay@.len(),
            i + m <= hay@.len(),
            j <= m,
            forall|t: int| 0 <= t < j ==> hay@[i + t] == needle@[t],
        decreases m - j,
    {
        if hay.get_char(i + j) != needle.get_char(j) {
            proof {
                assert(hay@.subrange(i as int, i + m)[j as int] != needle@[j as int]);
            }
            return false;
        }
        j = j + 1;
    }
    proof {
        assert(hay@.subrange(i as int, i + m) =~= needle@);
    }
    true
}

/// Whether `needle` occurs in `hay` as a contiguous piece (the empty text occurs everywhere).
pub fn contains_str(hay: &str, needle: &str) -> (r: bool)
    ensures
        r == contains_piece(hay@, needle@),
{
    let n = hay.unicode_len();
    let m = needle.unicode_len();
    if m > n {
        proof {
            assert forall|i: int| 0 <= i <= hay@.len() - needle@.len() implies #[trigger] hay@.subrange(i, i + needle@.len()) != needle@ by {
            }
        }
        return false;
    }
    let mut i: usize = 0;
    while i <= n - m
        invariant
            n == hay@.len(),
            m == needle@.len(),
            m <= n,
            i <= n - m,
            forall|k: int| 0 <= k < i ==> #[trigger] hay@.subrange(k, k + m) != needle@,
        decreases n - m - i,
    {
        let same = matches_at(hay, needle, i);
        if same {
            proof {
                assert(hay@.subrange(i as int, i + m) =~= needle@);
            }
            return true;
        }
        if i == n - m {
            return false;
        }
        i = i + 1;
    }
    false
}


/// The decimal digit character for `d < 10`.
pub open spec fn digit_char(d: nat) -> char {
    ((d + 48) as u8) as char
}

/// The decimal representation of `n`, without leading zeros.
pub open spec fn decimal(n: nat) -> Seq<char>
    decreases n,
{
    if n < 10 {
        seq![digit_char(n)]
    } else {
        decimal(n / 10).push(digit_char(n % 10))
    }
}

/// Appends the decimal representation of `n`.
pub fn push_decimal(s: &mut String, n: u64)
    ensures
        final(s)@ == old(s)@ + decimal(n as nat),
    decreases n,
{
    if n >= 10 {
        push_decimal(s, n / 10);
    }
    let d = (n % 10) as u8;
    push_char(s, (d + 48) as char);
    proof {
        if n >= 10 {
            assert(old(s)@ + decimal(n as nat) =~= old(s)@ + decimal((n / 10) as nat) + seq![digit_char((n % 10) as nat)]);
        } else {
            assert(old(s)@ + decimal(n as nat) =~= old(s)@.push(digit_char(n as nat)));
        }
    }
}

/// Appends a text.
pub fn push_text(s: &mut String, t: &str)
    ensures
        final(s)@ == old(s)@ + t@,
{
    s.append(t);
}


/// Whether two texts are equal.
pub fn text_eq(a: &str, b: &str) -> (r: bool)
    ensures
        r == (a@ == b@),
{
    let n = a.unicode_len();
    if n != b.unicode_len() {
        return false;
    }
    let mut i: usize = 0;
    while i < n
        invariant
            n == a@.len(),
            n == b@.len(),
            i <= n,
            forall|j: int| 0 <= j < i ==> a@[j] == b@[j],
        decreases n - i,
    {
        if a.get_char(i) != b.get_char(i) {
            return false;
        }
        i = i + 1;
    }
    assert(a@ =~= b@);
    true
}

/// What `str::to_lowercase` returns for a text that is not all ASCII (Unicode
/// lower-casing, independent of any locale).
pub uninterp spec fn unicode_lowercase(s: Seq<char>) -> Seq<char>;

/// Every character of the text is ASCII.
pub open spec fn is_ascii_text(s: Seq<char>) -> bool {
    forall|i: int| 0 <= i < s.len() ==> (#[trigger] s[i]) as u32 <= 127
}

/// The lower-cased text: ASCII letters become lower case one for one when the text is
/// all ASCII (which is what Unicode lower-casing does there); any other text is
/// lower-cased as `str::to_lowercase` does.
pub open spec fn lowercase(s: Seq<char>) -> Seq<char> {
    if is_ascii_text(s) {
        ascii_lower_seq(s)
    } else {
        unicode_lowercase(s)
    }
}

/// Calls `str::to_lowercase`.  The contract claims only that the result is
/// [`unicode_lowercase`] of the text: the same text always gives the same result.
#[verifier::external_body]
fn to_lowercase(s: &str) -> (r: String)
    ensures
        r@ == unicode_lowercase(s@),
{
    s.to_lowercase()
}

/// Whether every character of a text is ASCII.
pub fn is_ascii(s: &str) -> (r: bool)
    ensures
        r == is_ascii_text(s@),
{
    let n = s.unicode_len();
    let mut i: usize = 0;
    while i < n
        invariant
            n == s@.len(),
            i <= n,
            forall|j: int| 0 <= j < i ==> (#[trigger] s@[j]) as u32 <= 127,
        decreases n - i,
    {
        if s.get_char(i) as u32 > 127 {
            return false;
        }
        i = i + 1;
    }
    true
}

/// The lower-cased text (see [`lowercase`]).
pub fn lower_text(s: &str) -> (r: String)
    ensures
        r@ == lowercase(s@),
{
    if is_ascii(s) {
        ascii_lowercase(s)
    } else {
        to_lowercase(s)
    }
}

/// Lower-casing an all-ASCII text keeps its length and lower-cases each character on its
/// own: upper-case ASCII letters become their lower-case letters, everything else stays.
pub proof fn law_ascii_lowercase_is_letterwise(s: Seq<char>)
    requires
        is_ascii_text(s),
    ensures
        lowercase(s).len() == s.len(),
        forall|i: int| 0 <= i < s.len() ==> #[trigger] lowercase(s)[i] == (if 'A' <= s[i] <= 'Z' {
            ((s[i] as u32) + 32) as char
        } else {
            s[i]
        }),
{
}

/// What `str::trim` returns for a text: the text without leading and trailing Unicode
/// white space.
pub uninterp spec fn trimmed(s: Seq<char>) -> Seq<char>;

/// Calls `str::trim` and copies the result.  The contract claims only that the result is
/// [`trimmed`] of the text: the same text always gives the same result.
#[verifier::external_body]
pub(crate) fn trim_text(s: &str) -> (r: String)
    ensures
        r@ == trimmed(s@),
{
    s.trim().to_string()
}


/// A duration in milliseconds written as minutes, a colon and two-digit seconds ("3:05");
/// the milliseconds of an incomplete second are dropped.
pub open spec fn duration_text(ms: u32) -> Seq<char> {
    let total = ms / 1000;
    let secs = total % 60;
    decimal((total / 60) as nat) + seq![':', digit_char((secs / 10) as nat), digit_char((secs % 10) as nat)]
}

/// Writes a duration in milliseconds as minutes and two-digit seconds (see [`duration_text`]).
pub fn format_duration(ms: u32) -> (r: String)
    ensures
        r@ == duration_text(ms),
{
    let total_secs = ms / 1000;
    let mins = total_secs / 60;
    let secs = total_secs % 60;
    let mut r = String::new();
    push_decimal(&mut r, mins as u64);
    push_char(&mut r, ':');
    push_char(&mut r, ((secs / 10) as u8 + 48) as char);
    push_char(&mut r, ((secs % 10) as u8 + 48) as char);
    proof {
        assert(r@ =~= duration_text(ms));
    }
    r
}

} // verus!
