//! Character-level text handling: the line, whitespace, search and number
//! conventions of Rust's `str`, stated over `Seq<char>` and implemented on
//! `Vec<char>`.
use vstd::prelude::*;

verus! {

broadcast use vstd::string::axiom_spec_iter;

/// The characters of `s`, in order.
pub fn chars_of(s: &str) -> (res: Vec<char>)
    ensures
        res@ == s@,
{
    let mut res: Vec<char> = Vec::new();
    for c in it: s.chars()
        invariant
            res@ == it.seq().take(it.index() as int),
            it.seq() == s@,
    {
        res.push(c);
    }
    res
}

/// `std::string::String::from_iter` over characters: the string made of `chars`.
#[verifier::external_body]
pub(crate) fn string_from_chars(chars: &Vec<char>) -> (res: String)
    ensures
        res@ == chars@,
{
    String::from_iter(chars.iter())
}

/// The Unicode `White_Space` property, which `char::is_whitespace` tests.
pub open spec fn is_ws(c: char) -> bool {
    let n = c as u32;
    ||| 0x9 <= n <= 0xD
    ||| n == 0x20
    ||| n == 0x85
    ||| n == 0xA0
    ||| n == 0x1680
    ||| 0x2000 <= n <= 0x200A
    ||| n == 0x2028
    ||| n == 0x2029
    ||| n == 0x202F
    ||| n == 0x205F
    ||| n == 0x3000
}

pub fn is_whitespace(c: char) -> (res: bool)
    ensures
        res == is_ws(c),
{
    let n = c as u32;
    (0x9 <= n && n <= 0xD) || n == 0x20 || n == 0x85 || n == 0xA0 || n == 0x1680 || (0x2000 <= n
        && n <= 0x200A) || n == 0x2028 || n == 0x2029 || n == 0x202F || n == 0x205F || n == 0x3000
}

/// The characters `s[a..b]` as a new vector.
pub fn slice_chars(s: &Vec<char>, a: usize, b: usize) -> (res: Vec<char>)
    requires
        a <= b <= s.len(),
    ensures
        res@ == s@.subrange(a as int, b as int),
{
    let mut res: Vec<char> = Vec::new();
    let mut i = a;
    while i < b
        invariant
            a <= i <= b <= s.len(),
            res@ == s@.subrange(a as int, i as int),
        decreases b - i,
    {
        res.push(s[i]);
        i = i + 1;
    }
    res
}

/// Whether `p` occurs in `s` starting at index `i`.
pub open spec fn occurs_at(s: Seq<char>, p: Seq<char>, i: int) -> bool {
    0 <= i && i + p.len() <= s.len() && s.subrange(i, i + p.len()) == p
}

/// `str::starts_with` with a string pattern.
pub open spec fn starts_with(s: Seq<char>, p: Seq<char>) -> bool {
    occurs_at(s, p, 0)
}

/// `str::contains` with a string pattern.
pub open spec fn contains(s: Seq<char>, p: Seq<char>) -> bool {
    exists|i: int| #[trigger] occurs_at(s, p, i)
}

pub fn occurs_at_exec(s: &Vec<char>, p: &Vec<char>, i: usize) -> (res: bool)
    ensures
        res == occurs_at(s@, p@, i as int),
{
    if i > s.len() || p.len() > s.len() - i {
        return false;
    }
    let mut k: usize = 0;
    while k < p.len()
        invariant
            i + p.len() <= s.len(),
            k <= p.len(),
            forall|j: int| 0 <= j < k ==> s@[i + j] == p@[j],
        decreases p.len() - k,
    {
        if s[i + k] != p[k] {
            assert(s@.subrange(i as int, i + p.len())[k as int] != p@[k as int]);
            return false;
        }
        k = k + 1;
    }
    assert(s@.subrange(i as int, i + p.len()) =~= p@);
    true
}

pub fn starts_with_exec(s: &Vec<char>, p: &Vec<char>) -> (res: bool)
    ensures
        res == starts_with(s@, p@),
{
    occurs_at_exec(s, p, 0)
}

pub fn contains_exec(s: &Vec<char>, p: &Vec<char>) -> (res: bool)
    ensures
        res == contains(s@, p@),
{
    if p.len() > s.len() {
        assert(forall|i: int| !#[trigger] occurs_at(s@, p@, i));
        return false;
    }
    if p.len() == 0 {
        assert(s@.subrange(0, 0) =~= p@);
        assert(occurs_at(s@, p@, 0));
        return true;
    }
    let last = s.len() - p.len();
    let mut i: usize = 0;
    while i <= last
        invariant
            last == s.len() - p.len(),
            p.len() > 0,
            forall|j: int| 0 <= j < i ==> !#[trigger] occurs_at(s@, p@, j),
        decreases last + 1 - i,
    {
        if occurs_at_exec(s, p, i) {
            return true;
        }
        i = i + 1;
    }
    assert forall|j: int| !#[trigger] occurs_at(s@, p@, j) by {
        if 0 <= j && j < i {
        }
    }
    false
}

/// The first index at or after `k` that does not hold whitespace (or `s.len()`).
pub open spec fn skip_ws(s: Seq<char>, k: int) -> int
    decreases s.len() - k,
{
    if 0 <= k < s.len() && is_ws(s[k]) {
        skip_ws(s, k + 1)
    } else {
        k
    }
}

/// The end of `s[..k]` once trailing whitespace is dropped.
pub open spec fn trim_end_at(s: Seq<char>, k: int) -> int
    decreases k,
{
    if 0 < k <= s.len() && is_ws(s[k - 1]) {
        trim_end_at(s, k - 1)
    } else {
        k
    }
}

/// `str::trim`: `s` without leading and trailing whitespace.
pub open spec fn trim(s: Seq<char>) -> Seq<char> {
    let a = skip_ws(s, 0);
    let b = trim_end_at(s, s.len() as int);
    if a < b {
        s.subrange(a, b)
    } else {
        Seq::empty()
    }
}

pub proof fn lemma_skip_ws_bounds(s: Seq<char>, k: int)
    requires
        0 <= k <= s.len(),
    ensures
        k <= skip_ws(s, k) <= s.len(),
        skip_ws(s, k) < s.len() ==> !is_ws(s[skip_ws(s, k)]),
        forall|j: int| k <= j < skip_ws(s, k) ==> is_ws(#[trigger] s[j]),
    decreases s.len() - k,
{
    if k < s.len() && is_ws(s[k]) {
        lemma_skip_ws_bounds(s, k + 1);
    }
}

pub proof fn lemma_trim_end_bounds(s: Seq<char>, k: int)
    requires
        0 <= k <= s.len(),
    ensures
        0 <= trim_end_at(s, k) <= k,
        trim_end_at(s, k) > 0 ==> !is_ws(s[trim_end_at(s, k) - 1]),
        forall|j: int| trim_end_at(s, k) <= j < k ==> is_ws(#[trigger] s[j]),
    decreases k,
{
    if 0 < k && is_ws(s[k - 1]) {
        lemma_trim_end_bounds(s, k - 1);
    }
}

pub fn trim_exec(s: &Vec<char>) -> (res: Vec<char>)
    ensures
        res@ == trim(s@),
{
    let mut a: usize = 0;
    while a < s.len() && is_whitespace(s[a])
        invariant
            a <= s.len(),
            skip_ws(s@, 0) == skip_ws(s@, a as int),
        decreases s.len() - a,
    {
        a = a + 1;
    }
    let mut b: usize = s.len();
    while b > 0 && is_whitespace(s[b - 1])
        invariant
            b <= s.len(),
            trim_end_at(s@, s.len() as int) == trim_end_at(s@, b as int),
        decreases b,
    {
        b = b - 1;
    }
    if a < b {
        slice_chars(s, a, b)
    } else {
        Vec::new()
    }
}

/// The index of the first line feed at or after `k` (or `s.len()`).
pub open spec fn nl_index(s: Seq<char>, k: int) -> int
    decreases s.len() - k,
{
    if 0 <= k < s.len() && s[k] != '\n' {
        nl_index(s, k + 1)
    } else {
        k
    }
}

pub proof fn lemma_nl_index_bounds(s: Seq<char>, k: int)
    requires
        0 <= k <= s.len(),
    ensures
        k <= nl_index(s, k) <= s.len(),
        nl_index(s, k) < s.len() ==> s[nl_index(s, k)] == '\n',
        forall|j: int| k <= j < nl_index(s, k) ==> #[trigger] s[j] != '\n',
    decreases s.len() - k,
{
    if k < s.len() && s[k] != '\n' {
        lemma_nl_index_bounds(s, k + 1);
    }
}

/// The line `s[k..j]`; a carriage return just before a line feed ending it is dropped.
pub open spec fn line_text(s: Seq<char>, k: int, j: int) -> Seq<char> {
    if j < s.len() && k < j && s[j - 1] == '\r' {
        s.subrange(k, j - 1)
    } else {
        s.subrange(k, j)
    }
}

/// The lines of `s[k..]`, as `str::lines` yields them.
pub open spec fn lines_from(s: Seq<char>, k: int) -> Seq<Seq<char>>
    decreases s.len() + 1 - k,
    via lines_from_decreases
{
    if 0 <= k < s.len() {
        let j = nl_index(s, k);
        seq![line_text(s, k, j)] + lines_from(s, j + 1)
    } else {
        Seq::empty()
    }
}

#[via_fn]
proof fn lines_from_decreases(s: Seq<char>, k: int) {
    if 0 <= k < s.len() {
        lemma_nl_index_bounds(s, k);
    }
}

/// `str::lines`: the text split at line feeds, with `\r\n` endings stripped and
/// no empty line after a final line feed.
pub open spec fn lines(s: Seq<char>) -> Seq<Seq<char>> {
    lines_from(s, 0)
}

pub fn lines_exec(s: &Vec<char>) -> (res: Vec<Vec<char>>)
    ensures
        res.deep_view() == lines(s@),
{
    let mut res: Vec<Vec<char>> = Vec::new();
    let mut k: usize = 0;
    while k < s.len()
        invariant
            k <= s.len(),
            lines(s@) == res.deep_view() + lines_from(s@, k as int),
        decreases s.len() - k,
    {
        let mut j = k;
        while j < s.len() && s[j] != '\n'
            invariant
                k <= j <= s.len(),
                nl_index(s@, k as int) == nl_index(s@, j as int),
            decreases s.len() - j,
        {
            j = j + 1;
        }
        proof {
            lemma_nl_index_bounds(s@, k as int);
        }
        let line = if j < s.len() && k < j && s[j - 1] == '\r' {
            slice_chars(s, k, j - 1)
        } else {
            slice_chars(s, k, j)
        };
        let ghost before = res.deep_view();
        assert(line.deep_view() =~= line@);
        res.push(line);
        assert(res.deep_view() =~= before.push(line_text(s@, k as int, j as int)));
        assert(lines_from(s@, k as int) == seq![line_text(s@, k as int, j as int)] + lines_from(
            s@,
            j + 1,
        ));
        assert(before + lines_from(s@, k as int) =~= res.deep_view() + lines_from(s@, j + 1));
        if j < s.len() {
            k = j + 1;
        } else {
            assert(lines_from(s@, j + 1) =~= Seq::<Seq<char>>::empty());
            k = s.len();
            assert(lines_from(s@, k as int) =~= Seq::<Seq<char>>::empty());
        }
    }
    assert(lines_from(s@, k as int) =~= Seq::<Seq<char>>::empty());
    assert(res.deep_view() + Seq::<Seq<char>>::empty() =~= res.deep_view());
    res
}

/// The end of the run of non-whitespace characters starting at `k`.
pub open spec fn word_end(s: Seq<char>, k: int) -> int
    decreases s.len() - k,
{
    if 0 <= k < s.len() && !is_ws(s[k]) {
        word_end(s, k + 1)
    } else {
        k
    }
}

pub proof fn lemma_word_end_bounds(s: Seq<char>, k: int)
    requires
        0 <= k <= s.len(),
    ensures
        k <= word_end(s, k) <= s.len(),
        forall|j: int| k <= j < word_end(s, k) ==> !is_ws(#[trigger] s[j]),
    decreases s.len() - k,
{
    if k < s.len() && !is_ws(s[k]) {
        lemma_word_end_bounds(s, k + 1);
    }
}

/// The whitespace-separated words of `s[k..]`.
pub open spec fn words_from(s: Seq<char>, k: int) -> Seq<Seq<char>>
    decreases s.len() + 1 - k,
    via words_from_decreases
{
    if 0 <= k < s.len() {
        if is_ws(s[k]) {
            words_from(s, k + 1)
        } else {
            let b = word_end(s, k);
            seq![s.subrange(k, b)] + words_from(s, b)
        }
    } else {
        Seq::empty()
    }
}

#[via_fn]
proof fn words_from_decreases(s: Seq<char>, k: int) {
    if 0 <= k < s.len() {
        lemma_word_end_bounds(s, k + 1);
    }
}

/// `str::split_whitespace`: the maximal runs of non-whitespace characters.
pub open spec fn words(s: Seq<char>) -> Seq<Seq<char>> {
    words_from(s, 0)
}

pub fn words_exec(s: &Vec<char>) -> (res: Vec<Vec<char>>)
    ensures
        res.deep_view() == words(s@),
{
    let mut res: Vec<Vec<char>> = Vec::new();
    let mut k: usize = 0;
    while k < s.len()
        invariant
            k <= s.len(),
            words(s@) == res.deep_view() + words_from(s@, k as int),
        decreases s.len() - k,
    {
        if is_whitespace(s[k]) {
            k = k + 1;
        } else {
            let mut b = k;
            while b < s.len() && !is_whitespace(s[b])
                invariant
                    k <= b <= s.len(),
                    word_end(s@, k as int) == word_end(s@, b as int),
                decreases s.len() - b,
            {
                b = b + 1;
            }
            proof {
                lemma_word_end_bounds(s@, k as int);
            }
            let word = slice_chars(s, k, b);
            let ghost before = res.deep_view();
            assert(word.deep_view() =~= word@);
            res.push(word);
            assert(res.deep_view() =~= before.push(s@.subrange(k as int, b as int)));
            assert(before + words_from(s@, k as int) =~= res.deep_view() + words_from(
                s@,
                b as int,
            ));
            k = b;
        }
    }
    assert(words_from(s@, k as int) =~= Seq::<Seq<char>>::empty());
    assert(res.deep_view() + Seq::<Seq<char>>::empty() =~= res.deep_view());
    res
}

/// `s[k..]` with every occurrence of `p` removed, scanning left to right.
pub open spec fn remove_from(s: Seq<char>, p: Seq<char>, k: int) -> Seq<char>
    decreases s.len() + 1 - k,
{
    if 0 <= k < s.len() {
        if p.len() > 0 && occurs_at(s, p, k) {
            remove_from(s, p, k + p.len())
        } else {
            seq![s[k]] + remove_from(s, p, k + 1)
        }
    } else {
        Seq::empty()
    }
}

/// `str::replace(p, "")`: `s` with the non-overlapping occurrences of `p`,
/// found from the left, removed.
pub open spec fn remove_all(s: Seq<char>, p: Seq<char>) -> Seq<char> {
    remove_from(s, p, 0)
}

pub fn remove_all_exec(s: &Vec<char>, p: &Vec<char>) -> (res: Vec<char>)
    ensures
        res@ == remove_all(s@, p@),
{
    let mut res: Vec<char> = Vec::new();
    let mut k: usize = 0;
    while k < s.len()
        invariant
            k <= s.len(),
            remove_all(s@, p@) == res@ + remove_from(s@, p@, k as int),
        decreases s.len() - k,
    {
        if p.len() > 0 && occurs_at_exec(s, p, k) {
            k = k + p.len();
        } else {
            let ghost before = res@;
            res.push(s[k]);
            assert(before + remove_from(s@, p@, k as int) =~= res@ + remove_from(
                s@,
                p@,
                k + 1,
            ));
            k = k + 1;
        }
    }
    assert(res@ + remove_from(s@, p@, k as int) =~= res@);
    res
}

pub open spec fn is_digit(c: char) -> bool {
    48 <= (c as u32) <= 57
}

pub open spec fn digit_value(c: char) -> nat {
    ((c as u32) - 48) as nat
}

/// The decimal value of a string of digits.
pub open spec fn digits_value(d: Seq<char>) -> nat
    decreases d.len(),
{
    if d.len() == 0 {
        0
    } else {
        digits_value(d.drop_last()) * 10 + digit_value(d.last())
    }
}

/// The digits of an unsigned number: an optional leading `+` is dropped.
pub open spec fn unsigned_digits(s: Seq<char>) -> Seq<char> {
    if s.len() > 0 && s[0] == '+' {
        s.drop_first()
    } else {
        s
    }
}

/// `str::parse` into an unsigned integer type whose largest value is `max`:
/// an optional `+`, then at least one ASCII digit and nothing else, of value at most `max`.
pub open spec fn parse_unsigned(s: Seq<char>, max: nat) -> Option<nat> {
    let d = unsigned_digits(s);
    if d.len() > 0 && (forall|i: int| 0 <= i < d.len() ==> is_digit(#[trigger] d[i]))
        && digits_value(d) <= max {
        Some(digits_value(d))
    } else {
        None
    }
}

pub proof fn lemma_digits_value_prefix(d: Seq<char>, i: int)
    requires
        0 <= i <= d.len(),
    ensures
        digits_value(d.take(i)) <= digits_value(d),
    decreases d.len() - i,
{
    if i < d.len() {
        lemma_digits_value_prefix(d, i + 1);
        assert(d.take(i + 1).drop_last() =~= d.take(i));
    } else {
        assert(d.take(i) =~= d);
    }
}

/// `str::parse::<u64>`.
pub fn parse_u64(s: &Vec<char>) -> (res: Option<u64>)
    ensures
        match res {
            Some(v) => parse_unsigned(s@, u64::MAX as nat) == Some(v as nat),
            None => parse_unsigned(s@, u64::MAX as nat) is None,
        },
{
    let ghost d = unsigned_digits(s@);
    let start: usize = if s.len() > 0 && s[0] == '+' {
        1
    } else {
        0
    };
    assert(d =~= s@.skip(start as int));
    if start >= s.len() {
        return None;
    }
    let mut acc: u64 = 0;
    let mut i = start;
    while i < s.len()
        invariant
            start <= i <= s.len(),
            d == unsigned_digits(s@),
            d =~= s@.skip(start as int),
            forall|j: int| 0 <= j < i - start ==> is_digit(#[trigger] d[j]),
            acc as nat == digits_value(d.take(i - start)),
        decreases s.len() - i,
    {
        let c = s[i];
        let n = c as u32;
        if n < 48 || n > 57 {
            assert(!is_digit(d[i - start]));
            return None;
        }
        let dig = (n - 48) as u64;
        assert(d.take(i + 1 - start).drop_last() =~= d.take(i - start));
        assert(d.take(i + 1 - start).last() == c);
        match acc.checked_mul(10) {
            Some(m) => match m.checked_add(dig) {
                Some(v) => {
                    acc = v;
                },
                None => {
                    proof {
                        lemma_digits_value_prefix(d, i + 1 - start);
                    }
                    return None;
                },
            },
            None => {
                proof {
                    lemma_digits_value_prefix(d, i + 1 - start);
                }
                return None;
            },
        }
        i = i + 1;
    }
    assert(d.take(i - start) =~= d);
    Some(acc)
}

/// `str::parse::<usize>`.
pub fn parse_usize(s: &Vec<char>) -> (res: Option<usize>)
    ensures
        match res {
            Some(v) => parse_unsigned(s@, usize::MAX as nat) == Some(v as nat),
            None => parse_unsigned(s@, usize::MAX as nat) is None,
        },
{
    match parse_u64(s) {
        Some(v) => {
            if v <= usize::MAX as u64 {
                Some(v as usize)
            } else {
                None
            }
        },
        None => None,
    }
}

pub fn chars_eq(a: &Vec<char>, b: &Vec<char>) -> (res: bool)
    ensures
        res == (a@ == b@),
{
    if a.len() != b.len() {
        return false;
    }
    let mut i: usize = 0;
    while i < a.len()
        invariant
            a.len() == b.len(),
            i <= a.len(),
            forall|j: int| 0 <= j < i ==> a@[j] == b@[j],
        decreases a.len() - i,
    {
        if a[i] != b[i] {
            return false;
        }
        i = i + 1;
    }
    assert(a@ =~= b@);
    true
}

/// `str::find` with a string pattern, from index `k` on: the first index of an
/// occurrence of `p`, or -1.
pub open spec fn find_from(s: Seq<char>, p: Seq<char>, k: int) -> int
    decreases s.len() + 1 - k,
{
    if 0 <= k && k + p.len() <= s.len() {
        if occurs_at(s, p, k) {
            k
        } else {
            find_from(s, p, k + 1)
        }
    } else {
        -1
    }
}

pub open spec fn find(s: Seq<char>, p: Seq<char>) -> int {
    find_from(s, p, 0)
}

pub proof fn lemma_find_from(s: Seq<char>, p: Seq<char>, k: int)
    requires
        0 <= k,
    ensures
        find_from(s, p, k) == -1 || (k <= find_from(s, p, k) && occurs_at(s, p, find_from(s, p, k))),
        find_from(s, p, k) == -1 ==> forall|j: int| k <= j ==> !#[trigger] occurs_at(s, p, j),
        forall|j: int| k <= j < find_from(s, p, k) ==> !#[trigger] occurs_at(s, p, j),
    decreases s.len() + 1 - k,
{
    if k + p.len() <= s.len() {
        if !occurs_at(s, p, k) {
            lemma_find_from(s, p, k + 1);
        }
    }
}

pub fn find_exec(s: &Vec<char>, p: &Vec<char>) -> (res: Option<usize>)
    ensures
        match res {
            Some(i) => find(s@, p@) == i as int,
            None => find(s@, p@) == -1,
        },
{
    if p.len() > s.len() {
        return None;
    }
    let last = s.len() - p.len();
    let mut i: usize = 0;
    while i <= last
        invariant
            last == s.len() - p.len(),
            i <= last + 1,
            find(s@, p@) == find_from(s@, p@, i as int),
        decreases last + 1 - i,
    {
        if occurs_at_exec(s, p, i) {
            return Some(i);
        }
        if i == last {
            assert(find_from(s@, p@, i + 1) == -1);
            return None;
        }
        i = i + 1;
    }
    None
}

/// Appends the characters of `s`.
pub fn push_str(v: &mut Vec<char>, s: &str)
    ensures
        final(v)@ == old(v)@ + s@,
{
    let mut w = chars_of(s);
    v.append(&mut w);
}

pub open spec fn digit_char(d: nat) -> char {
    if d == 0 {
        '0'
    } else if d == 1 {
        '1'
    } else if d == 2 {
        '2'
    } else if d == 3 {
        '3'
    } else if d == 4 {
        '4'
    } else if d == 5 {
        '5'
    } else if d == 6 {
        '6'
    } else if d == 7 {
        '7'
    } else if d == 8 {
        '8'
    } else {
        '9'
    }
}

/// The decimal digits of `n`, as `{}` formats an unsigned integer.
pub open spec fn decimal(n: nat) -> Seq<char>
    decreases n,
{
    if n < 10 {
        seq![digit_char(n)]
    } else {
        decimal(n / 10).push(digit_char(n % 10))
    }
}

fn digit_char_exec(d: usize) -> (res: char)
    requires
        d < 10,
    ensures
        res == digit_char(d as nat),
{
    if d == 0 {
        '0'
    } else if d == 1 {
        '1'
    } else if d == 2 {
        '2'
    } else if d == 3 {
        '3'
    } else if d == 4 {
        '4'
    } else if d == 5 {
        '5'
    } else if d == 6 {
        '6'
    } else if d == 7 {
        '7'
    } else if d == 8 {
        '8'
    } else {
        '9'
    }
}

/// Appends the decimal digits of `n`.
pub fn push_decimal(v: &mut Vec<char>, n: usize)
    ensures
        final(v)@ == old(v)@ + decimal(n as nat),
    decreases n,
{
    if n < 10 {
        v.push(digit_char_exec(n));
        assert(v@ =~= old(v)@ + decimal(n as nat));
    } else {
        push_decimal(v, n / 10);
        v.push(digit_char_exec(n % 10));
        assert(v@ =~= old(v)@ + decimal(n as nat));
    }
}

proof fn lemma_digit_char(k: nat)
    requires
        k < 10,
    ensures
        is_digit(digit_char(k)),
        digit_value(digit_char(k)) == k,
{
}

/// The decimal digits of `n` read back as `n`: they are ASCII digits, at least
/// one, and their value is `n`.
pub proof fn lemma_decimal_reads_back(n: nat)
    ensures
        decimal(n).len() > 0,
        forall|i: int| 0 <= i < decimal(n).len() ==> is_digit(#[trigger] decimal(n)[i]),
        digits_value(decimal(n)) == n,
        parse_unsigned(decimal(n), n) == Some(n),
    decreases n,
{
    if n >= 10 {
        lemma_decimal_reads_back(n / 10);
        let d = decimal(n);
        assert(d.drop_last() =~= decimal(n / 10));
        assert(d.last() == digit_char(n % 10));
        assert(n == (n / 10) * 10 + n % 10 && n % 10 < 10) by (nonlinear_arith);
        lemma_digit_char(n % 10);
        assert(digits_value(d) == digits_value(d.drop_last()) * 10 + digit_value(d.last()));
    } else {
        lemma_digit_char(n);
        let d = decimal(n);
        assert(d.drop_last() =~= Seq::<char>::empty());
        assert(digits_value(d) == digits_value(d.drop_last()) * 10 + digit_value(d.last()));
    }
    let d = decimal(n);
    assert(d[0] != '+');
    assert(unsigned_digits(d) == d);
}

} // verus!
