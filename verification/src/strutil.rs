//! Character-sequence helpers shared across the crate: trimming,
//! case folding, decimal parsing and formatting, and lexicographic
//! ordering.

use vstd::prelude::*;

verus! {

/// Whitespace recognised when trimming identifiers and literals.
pub open spec fn ws_char(c: char) -> bool {
    c == ' ' || c == '\t' || c == '\n' || c == '\r' || c == '\u{b}' || c == '\u{c}'
}

/// `s` with leading whitespace removed.
pub open spec fn trim_front_spec(s: Seq<char>) -> Seq<char>
    decreases s.len(),
{
    if s.len() > 0 && ws_char(s[0]) {
        trim_front_spec(s.drop_first())
    } else {
        s
    }
}

/// `s` with trailing whitespace removed.
pub open spec fn trim_back_spec(s: Seq<char>) -> Seq<char>
    decreases s.len(),
{
    if s.len() > 0 && ws_char(s[s.len() - 1]) {
        trim_back_spec(s.drop_last())
    } else {
        s
    }
}

/// `s` with whitespace removed from both ends.
pub open spec fn trim_spec(s: Seq<char>) -> Seq<char> {
    trim_back_spec(trim_front_spec(s))
}

/// Lower-cased code point of `c`, folding only the ASCII range.
pub open spec fn lower_u(c: char) -> u32 {
    if 'A' <= c && c <= 'Z' {
        (c as u32 + 32) as u32
    } else {
        c as u32
    }
}

/// Upper-cased code point of `c`, folding only the ASCII range.
pub open spec fn upper_u(c: char) -> u32 {
    if 'a' <= c && c <= 'z' {
        (c as u32 - 32) as u32
    } else {
        c as u32
    }
}

/// Code points of `s` folded to ASCII lower case.
pub open spec fn lower_key(s: Seq<char>) -> Seq<u32> {
    s.map_values(|c: char| lower_u(c))
}

/// Code points of `s` folded to ASCII upper case.
pub open spec fn upper_key(s: Seq<char>) -> Seq<u32> {
    s.map_values(|c: char| upper_u(c))
}

/// Lower-cased code points of `s` with `-` and `_` dropped; the key under
/// which security-policy and mode aliases are compared.
pub open spec fn norm_key(s: Seq<char>) -> Seq<u32> {
    lower_key(s.filter(|c: char| c != '-' && c != '_'))
}

/// The characters of `s`, one `char` per element.
pub fn chars_of(s: &str) -> (r: Vec<char>)
    ensures
        r@ == s@,
{
    let n = s.unicode_len();
    let mut r: Vec<char> = Vec::new();
    let mut i: usize = 0;
    while i < n
        invariant
            n == s@.len(),
            i <= n,
            r@ == s@.take(i as int),
        decreases n - i,
    {
        let c = s.get_char(i);
        r.push(c);
        i = i + 1;
        proof {
            assert(r@ =~= s@.take(i as int));
        }
    }
    proof {
        assert(r@ =~= s@);
    }
    r
}

fn is_ws(c: char) -> (r: bool)
    ensures
        r == ws_char(c),
{
    c == ' ' || c == '\t' || c == '\n' || c == '\r' || c == '\u{b}' || c == '\u{c}'
}

proof fn lemma_trim_front_take(s: Seq<char>, i: int)
    requires
        0 <= i <= s.len(),
        forall|j: int| 0 <= j < i ==> ws_char(s[j]),
        i < s.len() ==> !ws_char(s[i]),
    ensures
        trim_front_spec(s) == s.skip(i),
    decreases i,
{
    if i == 0 {
        if s.len() > 0 {
            assert(!ws_char(s[0]));
        }
        assert(s.skip(0) =~= s);
    } else {
        assert(ws_char(s[0]));
        lemma_trim_front_take(s.drop_first(), i - 1);
        assert(s.drop_first().skip(i - 1) =~= s.skip(i));
    }
}

proof fn lemma_trim_back_take(s: Seq<char>, i: int)
    requires
        0 <= i <= s.len(),
        forall|j: int| i <= j < s.len() ==> ws_char(s[j]),
        i > 0 ==> !ws_char(s[i - 1]),
    ensures
        trim_back_spec(s) == s.take(i),
    decreases s.len() - i,
{
    if i == s.len() {
        if s.len() > 0 {
            assert(!ws_char(s[s.len() - 1]));
        }
        assert(s.take(s.len() as int) =~= s);
    } else {
        assert(ws_char(s[s.len() - 1]));
        lemma_trim_back_take(s.drop_last(), i);
        assert(s.drop_last().take(i) =~= s.take(i));
    }
}

/// The characters of `v` with whitespace removed from both ends.
pub fn trim_chars(v: &Vec<char>) -> (r: Vec<char>)
    ensures
        r@ == trim_spec(v@),
{
    let n = v.len();
    let mut start: usize = 0;
    while start < n && is_ws(v[start])
        invariant
            n == v@.len(),
            start <= n,
            forall|j: int| 0 <= j < start ==> ws_char(v@[j]),
        decreases n - start,
    {
        start = start + 1;
    }
    proof {
        lemma_trim_front_take(v@, start as int);
    }
    let mut end: usize = n;
    while end > start && is_ws(v[end - 1])
        invariant
            n == v@.len(),
            start <= end <= n,
            forall|j: int| end <= j < n ==> ws_char(v@[j]),
            trim_front_spec(v@) == v@.skip(start as int),
        decreases end,
    {
        end = end - 1;
    }
    let mut r: Vec<char> = Vec::new();
    let mut i: usize = start;
    while i < end
        invariant
            start <= i <= end <= n,
            n == v@.len(),
            r@ == v@.subrange(start as int, i as int),
        decreases end - i,
    {
        r.push(v[i]);
        i = i + 1;
        proof {
            assert(r@ =~= v@.subrange(start as int, i as int));
        }
    }
    proof {
        let tf = v@.skip(start as int);
        lemma_trim_back_take(tf, end - start);
        assert(tf.take(end - start) =~= v@.subrange(start as int, end as int));
        assert(r@ =~= v@.subrange(start as int, end as int));
    }
    r
}

proof fn lemma_trim_front_head(s: Seq<char>)
    ensures
        trim_front_spec(s).len() > 0 ==> !ws_char(trim_front_spec(s)[0]),
    decreases s.len(),
{
    if s.len() > 0 && ws_char(s[0]) {
        lemma_trim_front_head(s.drop_first());
    }
}

proof fn lemma_trim_back_props(s: Seq<char>)
    ensures
        trim_back_spec(s).len() <= s.len(),
        forall|i: int| 0 <= i < trim_back_spec(s).len() ==> trim_back_spec(s)[i] == s[i],
        trim_back_spec(s).len() > 0 ==> !ws_char(trim_back_spec(s).last()),
    decreases s.len(),
{
    if s.len() > 0 && ws_char(s[s.len() - 1]) {
        lemma_trim_back_props(s.drop_last());
        assert(trim_back_spec(s) == trim_back_spec(s.drop_last()));
        assert forall|i: int| 0 <= i < trim_back_spec(s).len() implies trim_back_spec(s)[i]
            == s[i] by {
            assert(trim_back_spec(s.drop_last())[i] == s.drop_last()[i]);
            assert(s.drop_last()[i] == s[i]);
        }
    }
}

/// Trimming is idempotent.
pub proof fn lemma_trim_idempotent(s: Seq<char>)
    ensures
        trim_spec(trim_spec(s)) == trim_spec(s),
{
    let u = trim_front_spec(s);
    let t = trim_back_spec(u);
    lemma_trim_front_head(s);
    lemma_trim_back_props(u);
    if t.len() == 0 {
        assert(trim_front_spec(t) == t);
        assert(trim_back_spec(t) == t);
    } else {
        assert(t[0] == u[0]);
        assert(u.len() > 0);
        assert(!ws_char(t[0]));
        assert(trim_front_spec(t) == t);
        assert(!ws_char(t.last()));
        assert(trim_back_spec(t) == t);
    }
}

/// `s` with whitespace removed from both ends, as an owned string.
pub fn trim_str(s: &str) -> (r: String)
    ensures
        r@ == trim_spec(s@),
{
    let n = s.unicode_len();
    let mut start: usize = 0;
    while start < n && is_ws(s.get_char(start))
        invariant
            n == s@.len(),
            start <= n,
            forall|j: int| 0 <= j < start ==> ws_char(s@[j]),
        decreases n - start,
    {
        start = start + 1;
    }
    proof {
        lemma_trim_front_take(s@, start as int);
    }
    let mut end: usize = n;
    while end > start && is_ws(s.get_char(end - 1))
        invariant
            n == s@.len(),
            start <= end <= n,
            forall|j: int| end <= j < n ==> ws_char(s@[j]),
            trim_front_spec(s@) == s@.skip(start as int),
        decreases end,
    {
        end = end - 1;
    }
    let piece = s.substring_char(start, end);
    proof {
        let tf = s@.skip(start as int);
        lemma_trim_back_take(tf, end - start);
        assert(tf.take(end - start) =~= s@.subrange(start as int, end as int));
    }
    piece.to_owned()
}

/// True exactly when the two slices hold the same characters.
pub fn eq_chars(a: &Vec<char>, b: &Vec<char>) -> (r: bool)
    ensures
        r == (a@ == b@),
{
    if a.len() != b.len() {
        proof {
            assert(a@.len() != b@.len());
        }
        return false;
    }
    let n = a.len();
    let mut i: usize = 0;
    while i < n
        invariant
            n == a@.len() == b@.len(),
            i <= n,
            forall|j: int| 0 <= j < i ==> a@[j] == b@[j],
        decreases n - i,
    {
        if a[i] != b[i] {
            return false;
        }
        i = i + 1;
    }
    proof {
        assert(a@ =~= b@);
    }
    true
}

/// The lower-cased code point of one character.
pub fn lower_of(c: char) -> (r: u32)
    ensures
        r == lower_u(c),
{
    if 'A' <= c && c <= 'Z' {
        c as u32 + 32
    } else {
        c as u32
    }
}

fn upper_exec(c: char) -> (r: u32)
    ensures
        r == upper_u(c),
{
    if 'a' <= c && c <= 'z' {
        c as u32 - 32
    } else {
        c as u32
    }
}

/// The lower-case key of `v`.
pub fn lower_key_of(v: &Vec<char>) -> (r: Vec<u32>)
    ensures
        r@ == lower_key(v@),
{
    let n = v.len();
    let mut r: Vec<u32> = Vec::new();
    let mut i: usize = 0;
    while i < n
        invariant
            n == v@.len(),
            i <= n,
            r@ == lower_key(v@.take(i as int)),
        decreases n - i,
    {
        r.push(lower_of(v[i]));
        i = i + 1;
        proof {
            assert(v@.take(i as int).drop_last() =~= v@.take(i - 1));
            assert(r@ =~= lower_key(v@.take(i as int)));
        }
    }
    proof {
        assert(v@.take(n as int) =~= v@);
    }
    r
}

/// The upper-case key of `v`.
pub fn upper_key_of(v: &Vec<char>) -> (r: Vec<u32>)
    ensures
        r@ == upper_key(v@),
{
    let n = v.len();
    let mut r: Vec<u32> = Vec::new();
    let mut i: usize = 0;
    while i < n
        invariant
            n == v@.len(),
            i <= n,
            r@ == upper_key(v@.take(i as int)),
        decreases n - i,
    {
        r.push(upper_exec(v[i]));
        i = i + 1;
        proof {
            assert(v@.take(i as int).drop_last() =~= v@.take(i - 1));
            assert(r@ =~= upper_key(v@.take(i as int)));
        }
    }
    proof {
        assert(v@.take(n as int) =~= v@);
    }
    r
}

/// The alias key of `v`: lower-cased with `-` and `_` dropped.
pub fn norm_key_of(v: &Vec<char>) -> (r: Vec<u32>)
    ensures
        r@ == norm_key(v@),
{
    let n = v.len();
    let mut kept: Vec<char> = Vec::new();
    let mut i: usize = 0;
    while i < n
        invariant
            n == v@.len(),
            i <= n,
            kept@ == v@.take(i as int).filter(|c: char| c != '-' && c != '_'),
        decreases n - i,
    {
        let c = v[i];
        proof {
            reveal_with_fuel(Seq::<_>::filter, 2);
            assert(v@.take(i + 1).drop_last() =~= v@.take(i as int));
        }
        if c != '-' && c != '_' {
            kept.push(c);
        }
        i = i + 1;
    }
    proof {
        assert(v@.take(n as int) =~= v@);
    }
    lower_key_of(&kept)
}

/// True exactly when the two key sequences are equal.
pub fn eq_keys(a: &Vec<u32>, b: &Vec<u32>) -> (r: bool)
    ensures
        r == (a@ == b@),
{
    if a.len() != b.len() {
        proof {
            assert(a@.len() != b@.len());
        }
        return false;
    }
    let n = a.len();
    let mut i: usize = 0;
    while i < n
        invariant
            n == a@.len() == b@.len(),
            i <= n,
            forall|j: int| 0 <= j < i ==> a@[j] == b@[j],
        decreases n - i,
    {
        if a[i] != b[i] {
            return false;
        }
        i = i + 1;
    }
    proof {
        assert(a@ =~= b@);
    }
    true
}

/// True exactly when the trimmed, case-folded text of `s` matches the
/// alias key of `t` with separators dropped.
pub fn norm_matches(s: &str, t: &str) -> (r: bool)
    ensures
        r == (norm_key(trim_spec(s@)) == norm_key(t@)),
{
    let sv = chars_of(s);
    let tv = chars_of(t);
    let st = trim_chars(&sv);
    let a = norm_key_of(&st);
    let b = norm_key_of(&tv);
    eq_keys(&a, &b)
}

/// True exactly when the trimmed, lower-cased text of `s` equals the
/// lower-case key of `t`.
pub fn lower_matches(s: &str, t: &str) -> (r: bool)
    ensures
        r == (lower_key(trim_spec(s@)) == lower_key(t@)),
{
    let sv = chars_of(s);
    let tv = chars_of(t);
    let st = trim_chars(&sv);
    let a = lower_key_of(&st);
    let b = lower_key_of(&tv);
    eq_keys(&a, &b)
}

/// True exactly when `c` is a decimal digit.
pub open spec fn digit(c: char) -> bool {
    '0' <= c && c <= '9'
}

/// Numeric value of the digit `c`.
pub open spec fn digit_val(c: char) -> nat {
    (c as u32 - 48) as nat
}

/// Digit character for a value below ten.
pub open spec fn digit_char(d: nat) -> char {
    if d == 0 {
        '0'
    } else if d == 1 {
        '1'
    } else if d == 2 {
        '2'
    } else if d == 3 {
        '3'
    } else if d == 4 {
        '4'
    } else if d == 5 {
        '5'
    } else if d == 6 {
        '6'
    } else if d == 7 {
        '7'
    } else if d == 8 {
        '8'
    } else {
        '9'
    }
}

/// True exactly when every character of `s` is a decimal digit.
pub open spec fn all_digits(s: Seq<char>) -> bool {
    forall|i: int| 0 <= i < s.len() ==> digit(#[trigger] s[i])
}

/// Value of the digit string `s` read in base ten.
pub open spec fn dec_val(s: Seq<char>) -> nat
    decreases s.len(),
{
    if s.len() == 0 {
        0
    } else {
        dec_val(s.drop_last()) * 10 + digit_val(s.last())
    }
}

/// Decimal text of `n`, without sign or padding.
pub open spec fn dec_of(n: nat) -> Seq<char>
    decreases n,
{
    if n < 10 {
        seq![digit_char(n)]
    } else {
        dec_of(n / 10).push(digit_char(n % 10))
    }
}

/// One-character text of the digit `d`.
pub fn digit_str(d: u64) -> (r: &'static str)
    requires
        d < 10,
    ensures
        r@ =~= seq![digit_char(d as nat)],
{
    proof {
        reveal_strlit("0");
        reveal_strlit("1");
        reveal_strlit("2");
        reveal_strlit("3");
        reveal_strlit("4");
        reveal_strlit("5");
        reveal_strlit("6");
        reveal_strlit("7");
        reveal_strlit("8");
        reveal_strlit("9");
    }
    if d == 0 {
        "0"
    } else if d == 1 {
        "1"
    } else if d == 2 {
        "2"
    } else if d == 3 {
        "3"
    } else if d == 4 {
        "4"
    } else if d == 5 {
        "5"
    } else if d == 6 {
        "6"
    } else if d == 7 {
        "7"
    } else if d == 8 {
        "8"
    } else {
        "9"
    }
}

/// Decimal text of `n`.
pub fn dec_u64(n: u64) -> (r: String)
    ensures
        r@ == dec_of(n as nat),
    decreases n,
{
    if n < 10 {
        let s = digit_str(n);
        let r = String::from_str(s);
        proof {
            assert(r@ =~= dec_of(n as nat));
        }
        r
    } else {
        let mut r = dec_u64(n / 10);
        r.append(digit_str(n % 10));
        proof {
            assert(r@ =~= dec_of(n as nat));
        }
        r
    }
}

/// Decimal text of a signed value: a minus sign for negatives, then
/// the magnitude's digits.
pub open spec fn dec_i64_of(v: int) -> Seq<char> {
    if v < 0 {
        "-"@ + dec_of((-v) as nat)
    } else {
        dec_of(v as nat)
    }
}

/// Decimal text of `v`.
pub fn dec_i64(v: i64) -> (r: String)
    ensures
        r@ == dec_i64_of(v as int),
{
    if v >= 0 {
        dec_u64(v as u64)
    } else {
        let m: u64 = (-(v as i128)) as u64;
        let mut r = String::from_str("-");
        proof {
            reveal_strlit("-");
        }
        r.append(dec_u64(m).as_str());
        r
    }
}

/// `'0'` repeated `k` times.
pub open spec fn zeros(k: nat) -> Seq<char>
    decreases k,
{
    if k == 0 {
        Seq::empty()
    } else {
        zeros((k - 1) as nat).push('0')
    }
}

/// Decimal text of `n`, left-padded with zeros to at least `w` characters.
pub open spec fn dec_pad(n: nat, w: nat) -> Seq<char> {
    let d = dec_of(n);
    if d.len() >= w {
        d
    } else {
        zeros((w - d.len()) as nat) + d
    }
}

/// Bounds on the length of decimal text.
pub proof fn lemma_dec_of_len(n: nat)
    ensures
        dec_of(n).len() >= 1,
        n < 10 ==> dec_of(n).len() == 1,
        n < 100 ==> dec_of(n).len() <= 2,
        n < 1000 ==> dec_of(n).len() <= 3,
        n < 10000 ==> dec_of(n).len() <= 4,
        n < 100000 ==> dec_of(n).len() <= 5,
        n < 1000000 ==> dec_of(n).len() <= 6,
    decreases n,
{
    if n >= 10 {
        lemma_dec_of_len(n / 10);
    }
}

/// Decimal text of `n` padded to width `w` (at most 8).
pub fn dec_u64_pad(n: u64, w: usize) -> (r: String)
    requires
        w <= 8,
    ensures
        r@ == dec_pad(n as nat, w as nat),
{
    let d = dec_u64(n);
    let dl = d.as_str().unicode_len();
    proof {
        lemma_dec_of_len(n as nat);
    }
    if dl >= w {
        return d;
    }
    let mut r = String::new();
    let mut k: usize = 0;
    while k < w - dl
        invariant
            dl == dec_of(n as nat).len(),
            dl < w <= 8,
            k <= w - dl,
            r@ == zeros(k as nat),
        decreases w - dl - k,
    {
        r.append(digit_str(0));
        k = k + 1;
        proof {
            assert(r@ =~= zeros(k as nat));
        }
    }
    r.append(d.as_str());
    proof {
        assert(r@ =~= dec_pad(n as nat, w as nat));
    }
    r
}

/// Text accepted by an unsigned decimal parse: an optional `+` sign,
/// then at least one digit.
pub open spec fn u64_digits(s: Seq<char>) -> Seq<char> {
    if s.len() > 0 && s[0] == '+' {
        s.drop_first()
    } else {
        s
    }
}

/// True exactly when `s` parses as a `u64`.
pub open spec fn u64_text_ok(s: Seq<char>) -> bool {
    let d = u64_digits(s);
    d.len() > 0 && all_digits(d) && dec_val(d) <= u64::MAX
}

proof fn lemma_dec_val_prefix(s: Seq<char>, i: int)
    requires
        0 <= i <= s.len(),
    ensures
        dec_val(s.take(i)) <= dec_val(s),
    decreases s.len() - i,
{
    if i < s.len() {
        lemma_dec_val_prefix(s, i + 1);
        assert(s.take(i + 1).drop_last() =~= s.take(i));
        assert(dec_val(s.take(i + 1)) == dec_val(s.take(i)) * 10 + digit_val(s.take(i + 1).last()));
    } else {
        assert(s.take(i) =~= s);
    }
}

fn parse_digits(v: &Vec<char>, from: usize) -> (r: Option<u64>)
    requires
        from <= v@.len(),
    ensures
        ({
            let d = v@.skip(from as int);
            match r {
                Some(x) => d.len() > 0 && all_digits(d) && dec_val(d) <= u64::MAX && x as nat
                    == dec_val(d),
                None => !(d.len() > 0 && all_digits(d) && dec_val(d) <= u64::MAX),
            }
        }),
{
    let ghost d = v@.skip(from as int);
    let n = v.len();
    if from == n {
        return None;
    }
    let mut acc: u64 = 0;
    let mut i: usize = from;
    while i < n
        invariant
            from <= i <= n,
            n == v@.len(),
            d == v@.skip(from as int),
            forall|j: int| from <= j < i ==> digit(#[trigger] v@[j]),
            acc as nat == dec_val(d.take(i - from)),
        decreases n - i,
    {
        let c = v[i];
        if !('0' <= c && c <= '9') {
            proof {
                assert(d[i - from] == v@[i as int]);
                assert(!digit(d[i - from]));
            }
            return None;
        }
        let dv: u64 = (c as u32 - 48) as u64;
        proof {
            assert(d.take(i - from + 1).drop_last() =~= d.take(i - from));
            assert(d.take(i - from + 1).last() == v@[i as int]);
        }
        if acc > (u64::MAX - dv) / 10 {
            proof {
                assert(dec_val(d.take(i - from + 1)) == dec_val(d.take(i - from)) * 10 + digit_val(
                    v@[i as int],
                ));
                assert(dec_val(d.take(i - from + 1)) > u64::MAX);
                lemma_dec_val_prefix(d, i - from + 1);
            }
            return None;
        }
        acc = acc * 10 + dv;
        i = i + 1;
    }
    proof {
        assert(d.take(n - from) =~= d);
    }
    Some(acc)
}

/// Parses `v` as unsigned decimal text, exactly as a `u64` parse does:
/// an optional leading `+`, then decimal digits, rejecting overflow.
pub fn parse_u64_chars(v: &Vec<char>) -> (r: Option<u64>)
    ensures
        match r {
            Some(x) => u64_text_ok(v@) && x as nat == dec_val(u64_digits(v@)),
            None => !u64_text_ok(v@),
        },
{
    let from: usize = if v.len() > 0 && v[0] == '+' {
        1
    } else {
        0
    };
    proof {
        if v@.len() > 0 && v@[0] == '+' {
            assert(v@.skip(1) =~= u64_digits(v@));
        } else {
            assert(v@.skip(0) =~= v@);
        }
    }
    parse_digits(v, from)
}

/// True exactly when `s` parses as an `i64`.
pub open spec fn i64_text_ok(s: Seq<char>) -> bool {
    if s.len() > 0 && s[0] == '-' {
        let d = s.drop_first();
        d.len() > 0 && all_digits(d) && dec_val(d) <= 0x8000_0000_0000_0000
    } else {
        let d = u64_digits(s);
        d.len() > 0 && all_digits(d) && dec_val(d) <= i64::MAX
    }
}

/// Value of `s` read as signed decimal text.
pub open spec fn i64_text_val(s: Seq<char>) -> int {
    if s.len() > 0 && s[0] == '-' {
        -(dec_val(s.drop_first()) as int)
    } else {
        dec_val(u64_digits(s)) as int
    }
}

/// Parses `v` as signed decimal text, exactly as an `i64` parse does.
pub fn parse_i64_chars(v: &Vec<char>) -> (r: Option<i64>)
    ensures
        match r {
            Some(x) => i64_text_ok(v@) && x as int == i64_text_val(v@),
            None => !i64_text_ok(v@),
        },
{
    if v.len() > 0 && v[0] == '-' {
        proof {
            assert(v@.skip(1) =~= v@.drop_first());
        }
        match parse_digits(v, 1) {
            Some(x) => {
                if x <= 0x7fff_ffff_ffff_ffff {
                    Some(-(x as i64))
                } else if x == 0x8000_0000_0000_0000 {
                    Some(i64::MIN)
                } else {
                    None
                }
            },
            None => None,
        }
    } else {
        match parse_u64_chars(v) {
            Some(x) => {
                if x <= 0x7fff_ffff_ffff_ffff {
                    Some(x as i64)
                } else {
                    None
                }
            },
            None => None,
        }
    }
}

/// Lexicographic order on character sequences by code point; this is
/// the order in which `str` values compare.
pub open spec fn lex_le(a: Seq<char>, b: Seq<char>) -> bool
    decreases a.len(),
{
    if a.len() == 0 {
        true
    } else if b.len() == 0 {
        false
    } else if a[0] != b[0] {
        a[0] < b[0]
    } else {
        lex_le(a.drop_first(), b.drop_first())
    }
}

/// The order is transitive.
pub proof fn lemma_lex_le_trans(a: Seq<char>, b: Seq<char>, c: Seq<char>)
    requires
        lex_le(a, b),
        lex_le(b, c),
    ensures
        lex_le(a, c),
    decreases a.len(),
{
    if a.len() > 0 && b.len() > 0 && c.len() > 0 {
        if a[0] == b[0] && b[0] == c[0] {
            lemma_lex_le_trans(a.drop_first(), b.drop_first(), c.drop_first());
        }
    }
}

/// A sequence whose adjacent entries are ordered is ordered pairwise.
pub proof fn lemma_lex_le_adjacent_sorted(ids: Seq<Seq<char>>)
    requires
        forall|j: int| 0 <= j < ids.len() - 1 ==> lex_le(#[trigger] ids[j], ids[j + 1]),
    ensures
        forall|i: int, j: int|
            0 <= i < j < ids.len() ==> lex_le(#[trigger] ids[i], #[trigger] ids[j]),
{
    assert forall|i: int, j: int| 0 <= i < j < ids.len() implies lex_le(
        #[trigger] ids[i],
        #[trigger] ids[j],
    ) by {
        lemma_lex_le_span(ids, i, j);
    }
}

proof fn lemma_lex_le_span(ids: Seq<Seq<char>>, i: int, j: int)
    requires
        forall|k: int| 0 <= k < ids.len() - 1 ==> lex_le(#[trigger] ids[k], ids[k + 1]),
        0 <= i < j < ids.len(),
    ensures
        lex_le(ids[i], ids[j]),
    decreases j - i,
{
    if i + 1 == j {
        assert(lex_le(ids[i], ids[i + 1]));
    } else {
        lemma_lex_le_span(ids, i, j - 1);
        assert(lex_le(ids[j - 1], ids[j]));
        lemma_lex_le_trans(ids[i], ids[j - 1], ids[j]);
    }
}

/// Strict lexicographic order: `a` precedes `b` and differs from it.
pub open spec fn lex_lt(a: Seq<char>, b: Seq<char>) -> bool {
    lex_le(a, b) && a != b
}

/// True exactly when `a` strictly precedes `b` in lexicographic order.
pub fn lt_chars(a: &Vec<char>, b: &Vec<char>) -> (r: bool)
    ensures
        r == lex_lt(a@, b@),
{
    if le_chars(a, b) {
        !eq_chars(a, b)
    } else {
        false
    }
}

/// True exactly when `a` precedes or equals `b` in lexicographic order.
pub fn le_chars(a: &Vec<char>, b: &Vec<char>) -> (r: bool)
    ensures
        r == lex_le(a@, b@),
{
    let an = a.len();
    let bn = b.len();
    let mut i: usize = 0;
    proof {
        assert(a@.skip(0) =~= a@);
        assert(b@.skip(0) =~= b@);
    }
    loop
        invariant
            an == a@.len(),
            bn == b@.len(),
            i <= an,
            i <= bn,
            forall|j: int| 0 <= j < i ==> a@[j] == b@[j],
            lex_le(a@, b@) == lex_le(a@.skip(i as int), b@.skip(i as int)),
        decreases an - i,
    {
        if i == an {
            return true;
        }
        if i == bn {
            return false;
        }
        let x = a[i];
        let y = b[i];
        if x != y {
            return x < y;
        }
        proof {
            assert(a@.skip(i as int).drop_first() =~= a@.skip(i + 1));
            assert(b@.skip(i as int).drop_first() =~= b@.skip(i + 1));
        }
        i = i + 1;
    }
}

/// Relies on `String::from` for `char`: the returned string holds
/// exactly that character.
#[verifier::external_body]
pub fn char_string(c: char) -> (r: String)
    ensures
        r@ == seq![c],
{
    String::from(c)
}

/// True when `v` is a Unicode scalar value.
pub open spec fn valid_scalar(v: u32) -> bool {
    v < 0xD800 || (0xE000 <= v && v <= 0x10FFFF)
}

/// Relies on `char::from_u32`: the scalar value `v` as a character,
/// `None` outside the scalar range.
#[verifier::external_body]
pub fn char_of_u32(v: u32) -> (r: Option<char>)
    ensures
        r == if valid_scalar(v) {
            Some(v as char)
        } else {
            None::<char>
        },
{
    char::from_u32(v)
}

/// A filtered sequence is no longer than its source.
pub proof fn lemma_filter_len_le<A>(s: Seq<A>, pred: spec_fn(A) -> bool)
    ensures
        s.filter(pred).len() <= s.len(),
{
    s.lemma_filter_len(pred);
}

/// A filtered sequence as long as its source is its source.
pub proof fn lemma_filter_same_len<A>(s: Seq<A>, pred: spec_fn(A) -> bool)
    requires
        s.filter(pred).len() == s.len(),
    ensures
        s.filter(pred) == s,
    decreases s.len(),
{
    reveal_with_fuel(Seq::<_>::filter, 2);
    if s.len() > 0 {
        lemma_filter_len_le(s.drop_last(), pred);
        if pred(s.last()) {
            lemma_filter_same_len(s.drop_last(), pred);
            assert(s.filter(pred) =~= s);
        } else {
            assert(s.filter(pred) == s.drop_last().filter(pred));
        }
    } else {
        assert(s.filter(pred) =~= s);
    }
}

} // verus!
