//! Character-level text handling: splitting on a separator, joining,
//! trimming white space, prefixes, and decimal numbers.  Everything is
//! stated over `Seq<char>`, the view of `str` and `String`.
use vstd::prelude::*;

verus! {

/// `String::push` appends one character at the end of the string.
pub assume_specification[ String::push ](s: &mut String, ch: char)
    ensures
        final(s)@ == old(s)@.push(ch),
;

// ---------------------------------------------------------------------
// Splitting and joining
// ---------------------------------------------------------------------
/// The pieces of `s` between occurrences of `sep`, as `str::split` with a
/// one-character pattern yields them: there is always at least one piece,
/// and `k` separators give `k + 1` pieces.
pub open spec fn split_on(s: Seq<char>, sep: char) -> Seq<Seq<char>>
    decreases s.len(),
{
    if s.len() == 0 {
        seq![Seq::<char>::empty()]
    } else {
        let r = split_on(s.drop_last(), sep);
        if s.last() == sep {
            r.push(Seq::<char>::empty())
        } else {
            r.update(r.len() - 1, r.last().push(s.last()))
        }
    }
}

/// The pieces glued together with `sep` between neighbours, as
/// `[T]::join` does.
pub open spec fn join_with(parts: Seq<Seq<char>>, sep: Seq<char>) -> Seq<char>
    decreases parts.len(),
{
    if parts.len() == 0 {
        Seq::<char>::empty()
    } else if parts.len() == 1 {
        parts[0]
    } else {
        join_with(parts.drop_last(), sep) + sep + parts.last()
    }
}

/// The views of a vector of character vectors.
pub open spec fn char_views(v: Seq<Vec<char>>) -> Seq<Seq<char>> {
    v.map_values(|x: Vec<char>| x@)
}

/// The views of a vector of strings.
pub open spec fn string_views(v: Seq<String>) -> Seq<Seq<char>> {
    v.map_values(|x: String| x@)
}

/// Splitting always yields at least one piece.
pub proof fn lemma_split_nonempty(s: Seq<char>, sep: char)
    ensures
        split_on(s, sep).len() >= 1,
    decreases s.len(),
{
    if s.len() > 0 {
        lemma_split_nonempty(s.drop_last(), sep);
    }
}

/// A text without the separator is a single piece.
pub proof fn lemma_split_no_sep(s: Seq<char>, sep: char)
    requires
        !s.contains(sep),
    ensures
        split_on(s, sep) == seq![s],
    decreases s.len(),
{
    if s.len() == 0 {
        assert(s =~= Seq::<char>::empty());
    } else {
        assert(!s.drop_last().contains(sep)) by {
            if s.drop_last().contains(sep) {
                let k = choose|k: int| 0 <= k < s.drop_last().len() && s.drop_last()[k] == sep;
                assert(s[k] == sep);
            }
        }
        lemma_split_no_sep(s.drop_last(), sep);
        assert(s.last() != sep) by {
            assert(s[s.len() - 1] == s.last());
        }
        assert(s.drop_last().push(s.last()) =~= s);
        let r = split_on(s.drop_last(), sep);
        assert(split_on(s, sep) == r.update(r.len() - 1, r.last().push(s.last())));
        assert(seq![s.drop_last()].update(0, s.drop_last().push(s.last())) =~= seq![s]);
    }
}

/// Splitting `x`, a separator, then `y` gives the pieces of `x` followed by
/// the pieces of `y`.
pub proof fn lemma_split_concat(x: Seq<char>, y: Seq<char>, sep: char)
    ensures
        split_on(x + seq![sep] + y, sep) == split_on(x, sep) + split_on(y, sep),
    decreases y.len(),
{
    let xs = x + seq![sep];
    if y.len() == 0 {
        assert(xs + y =~= xs);
        assert(xs.drop_last() =~= x);
        assert(xs.last() == sep);
        assert(split_on(x, sep).push(Seq::<char>::empty()) =~= split_on(x, sep) + seq![
            Seq::<char>::empty(),
        ]);
    } else {
        let s = xs + y;
        assert(s.drop_last() =~= xs + y.drop_last());
        assert(s.last() == y.last());
        lemma_split_concat(x, y.drop_last(), sep);
        lemma_split_nonempty(y.drop_last(), sep);
        lemma_split_nonempty(x, sep);
        let a = split_on(x, sep);
        let b = split_on(y.drop_last(), sep);
        if y.last() == sep {
            assert((a + b).push(Seq::<char>::empty()) =~= a + b.push(Seq::<char>::empty()));
        } else {
            assert((a + b).last() == b.last());
            assert((a + b).update((a + b).len() - 1, b.last().push(y.last())) =~= a + b.update(
                b.len() - 1,
                b.last().push(y.last()),
            ));
        }
    }
}

/// Joining with one more piece adds the separator and that piece.
proof fn lemma_join_push(parts: Seq<Seq<char>>, p: Seq<char>, sep: Seq<char>)
    requires
        parts.len() >= 1,
    ensures
        join_with(parts.push(p), sep) == join_with(parts, sep) + sep + p,
{
    assert(parts.push(p).drop_last() =~= parts);
}

/// Splitting on a separator and joining the pieces with that separator gives
/// back the text.
pub proof fn lemma_join_split(s: Seq<char>, sep: char)
    ensures
        join_with(split_on(s, sep), seq![sep]) == s,
    decreases s.len(),
{
    if s.len() > 0 {
        let r = split_on(s.drop_last(), sep);
        lemma_join_split(s.drop_last(), sep);
        lemma_split_nonempty(s.drop_last(), sep);
        if s.last() == sep {
            lemma_join_push(r, Seq::<char>::empty(), seq![sep]);
            assert(s.drop_last() + seq![sep] + Seq::<char>::empty() =~= s);
        } else {
            let r2 = r.update(r.len() - 1, r.last().push(s.last()));
            if r.len() == 1 {
                assert(s.drop_last().push(s.last()) =~= s);
            } else {
                assert(r2.drop_last() =~= r.drop_last());
                assert(join_with(r.drop_last(), seq![sep]) + seq![sep] + r.last().push(s.last())
                    =~= (join_with(r.drop_last(), seq![sep]) + seq![sep] + r.last()).push(
                    s.last(),
                ));
                assert(s.drop_last().push(s.last()) =~= s);
            }
        }
    }
}

/// Joining pieces `from..to` equals joining `from..to - 1`, the separator,
/// and piece `to - 1`.
proof fn lemma_join_range_step(parts: Seq<Seq<char>>, from: int, to: int, sep: Seq<char>)
    requires
        0 <= from < to <= parts.len(),
    ensures
        join_with(parts.subrange(from, to), sep) == if to == from + 1 {
            parts[from]
        } else {
            join_with(parts.subrange(from, to - 1), sep) + sep + parts[to - 1]
        },
{
    if to > from + 1 {
        assert(parts.subrange(from, to).drop_last() =~= parts.subrange(from, to - 1));
    }
}

// ---------------------------------------------------------------------
// Prefixes and white space
// ---------------------------------------------------------------------
/// `p` is a prefix of `s`, as `str::starts_with` tests it.
pub open spec fn is_prefix(p: Seq<char>, s: Seq<char>) -> bool {
    p.len() <= s.len() && s.subrange(0, p.len() as int) == p
}

/// The characters with the Unicode `White_Space` property, which
/// `char::is_whitespace` accepts.
pub open spec fn is_white(c: char) -> bool {
    let u = c as u32;
    ||| 0x09 <= u <= 0x0D
    ||| u == 0x20
    ||| u == 0x85
    ||| u == 0xA0
    ||| u == 0x1680
    ||| 0x2000 <= u <= 0x200A
    ||| u == 0x2028
    ||| u == 0x2029
    ||| u == 0x202F
    ||| u == 0x205F
    ||| u == 0x3000
}

/// `s` without its leading white space.
pub open spec fn trim_start(s: Seq<char>) -> Seq<char>
    decreases s.len(),
{
    if s.len() > 0 && is_white(s[0]) {
        trim_start(s.drop_first())
    } else {
        s
    }
}

/// `s` without its trailing white space.
pub open spec fn trim_end(s: Seq<char>) -> Seq<char>
    decreases s.len(),
{
    if s.len() > 0 && is_white(s.last()) {
        trim_end(s.drop_last())
    } else {
        s
    }
}

/// `s` without leading and trailing white space, as `str::trim` gives it.
pub open spec fn trim(s: Seq<char>) -> Seq<char> {
    trim_end(trim_start(s))
}

// ---------------------------------------------------------------------
// Decimal numbers
// ---------------------------------------------------------------------
/// The ASCII digit of `d`, for `d < 10`.
pub open spec fn digit_char(d: nat) -> char {
    if d == 0 {
        '0'
    } else if d == 1 {
        '1'
    } else if d == 2 {
        '2'
    } else if d == 3 {
        '3'
    } else if d == 4 {
        '4'
    } else if d == 5 {
        '5'
    } else if d == 6 {
        '6'
    } else if d == 7 {
        '7'
    } else if d == 8 {
        '8'
    } else {
        '9'
    }
}

/// The decimal text of `n`, without leading zeros, as `Display` writes an
/// unsigned integer.
pub open spec fn decimal(n: nat) -> Seq<char>
    decreases n,
{
    if n < 10 {
        seq![digit_char(n)]
    } else {
        decimal(n / 10).push(digit_char(n % 10))
    }
}

/// The decimal text of a signed integer, with a leading `-` when negative.
pub open spec fn signed_decimal(n: int) -> Seq<char> {
    if n < 0 {
        seq!['-'] + decimal((-n) as nat)
    } else {
        decimal(n as nat)
    }
}

/// An ASCII digit.
pub open spec fn is_digit(c: char) -> bool {
    '0' <= c && c <= '9'
}

/// The value of an ASCII digit.
pub open spec fn digit_value(c: char) -> nat {
    ((c as u32) - ('0' as u32)) as nat
}

/// The value of a run of ASCII digits, most significant first.
pub open spec fn digits_value(s: Seq<char>) -> nat
    decreases s.len(),
{
    if s.len() == 0 {
        0
    } else {
        digits_value(s.drop_last()) * 10 + digit_value(s.last())
    }
}

/// Every character of `s` is an ASCII digit.
pub open spec fn all_digits(s: Seq<char>) -> bool {
    forall|i: int| 0 <= i < s.len() ==> #[trigger] is_digit(s[i])
}

/// `s` without one leading `+`.
pub open spec fn unsigned_body(s: Seq<char>) -> Seq<char> {
    if s.len() > 0 && s[0] == '+' {
        s.drop_first()
    } else {
        s
    }
}

/// What `str::parse` gives for an unsigned integer type whose largest value
/// is `max`: an optional `+`, then one or more ASCII digits whose value does
/// not exceed `max`.
pub open spec fn parse_unsigned(s: Seq<char>, max: nat) -> Option<nat> {
    let b = unsigned_body(s);
    if b.len() > 0 && all_digits(b) && digits_value(b) <= max {
        Some(digits_value(b))
    } else {
        None
    }
}

proof fn lemma_digit_char(d: nat)
    requires
        d < 10,
    ensures
        is_digit(digit_char(d)),
        digit_value(digit_char(d)) == d,
{
}

/// The decimal text of `n` is made of digits whose value is `n`.
pub proof fn lemma_decimal_digits(n: nat)
    ensures
        all_digits(decimal(n)),
        digits_value(decimal(n)) == n,
        decimal(n).len() >= 1,
        decimal(n)[0] != '+',
    decreases n,
{
    if n < 10 {
        lemma_digit_char(n);
        assert(seq![digit_char(n)].drop_last() =~= Seq::<char>::empty());
        assert(seq![digit_char(n)].last() == digit_char(n));
        assert(decimal(n) == seq![digit_char(n)]);
        assert(digits_value(seq![digit_char(n)]) == digits_value(Seq::<char>::empty()) * 10
            + digit_value(digit_char(n)));
    } else {
        lemma_decimal_digits(n / 10);
        lemma_digit_char(n % 10);
        let d = decimal(n / 10);
        assert(d.push(digit_char(n % 10)).drop_last() =~= d);
        assert(d.push(digit_char(n % 10)).last() == digit_char(n % 10));
        assert(decimal(n) == d.push(digit_char(n % 10)));
        assert(digits_value(d.push(digit_char(n % 10))) == digits_value(d) * 10 + digit_value(
            digit_char(n % 10),
        ));
        assert(n == (n / 10) * 10 + n % 10);
        assert forall|i: int| 0 <= i < d.len() + 1 implies #[trigger] is_digit(
            d.push(digit_char(n % 10))[i],
        ) by {
            if i < d.len() {
                assert(is_digit(d[i]));
            }
        }
        assert(d.push(digit_char(n % 10))[0] == d[0]);
    }
}

/// Parsing the decimal text of a value that fits gives the value back.
pub proof fn lemma_parse_decimal(n: nat, max: nat)
    requires
        n <= max,
    ensures
        parse_unsigned(decimal(n), max) == Some(n),
{
    lemma_decimal_digits(n);
}

/// A longer run of digits is worth at least as much as its prefix.
proof fn lemma_digits_value_grows(s: Seq<char>, k: int)
    requires
        0 <= k <= s.len(),
        all_digits(s),
    ensures
        digits_value(s.take(k)) <= digits_value(s),
    decreases s.len(),
{
    if k < s.len() {
        assert(all_digits(s.drop_last())) by {
            assert forall|i: int| 0 <= i < s.drop_last().len() implies #[trigger] is_digit(
                s.drop_last()[i],
            ) by {
                assert(is_digit(s[i]));
            }
        }
        lemma_digits_value_grows(s.drop_last(), k);
        assert(s.drop_last().take(k) =~= s.take(k));
    } else {
        assert(s.take(k) =~= s);
    }
}

// ---------------------------------------------------------------------
// Executable helpers
// ---------------------------------------------------------------------
/// The characters of `s`.
pub fn chars_of(s: &str) -> (r: Vec<char>)
    ensures
        r@ == s@,
{
    let mut r: Vec<char> = Vec::new();
    for c in it: s.chars()
        invariant
            r@ == it.seq().take(it.index() as int),
    {
        r.push(c);
    }
    r
}

/// A string holding the characters of `v`.
pub fn string_of(v: &Vec<char>) -> (r: String)
    ensures
        r@ == v@,
{
    let mut r = String::new();
    let mut i: usize = 0;
    while i < v.len()
        invariant
            i <= v.len(),
            r@ == v@.take(i as int),
        decreases v.len() - i,
    {
        r.push(v[i]);
        i += 1;
        assert(v@.take(i as int) =~= v@.take(i - 1).push(v@[i - 1]));
    }
    assert(v@.take(i as int) =~= v@);
    r
}

/// A string with the characters of `s`.
pub fn owned(s: &str) -> (r: String)
    ensures
        r@ == s@,
{
    String::from_str(s)
}

/// `a` followed by `b`.
pub fn concat(a: String, b: &str) -> (r: String)
    ensures
        r@ == a@ + b@,
{
    a.concat(b)
}

/// Whether the two texts are equal.
pub fn same_text(a: &str, b: &str) -> (r: bool)
    ensures
        r == (a@ == b@),
{
    let x = chars_of(a);
    let y = chars_of(b);
    if x.len() != y.len() {
        return false;
    }
    let mut i: usize = 0;
    while i < x.len()
        invariant
            i <= x.len(),
            x.len() == y.len(),
            x@ == a@,
            y@ == b@,
            forall|j: int| 0 <= j < i ==> x@[j] == y@[j],
        decreases x.len() - i,
    {
        if x[i] != y[i] {
            assert(x@[i as int] != y@[i as int]);
            return false;
        }
        i += 1;
    }
    assert(x@ =~= y@);
    true
}

/// Whether `p` is a prefix of `s`.
pub fn has_prefix(s: &str, p: &str) -> (r: bool)
    ensures
        r == is_prefix(p@, s@),
{
    let x = chars_of(s);
    let y = chars_of(p);
    if y.len() > x.len() {
        return false;
    }
    let mut i: usize = 0;
    while i < y.len()
        invariant
            i <= y.len(),
            y.len() <= x.len(),
            x@ == s@,
            y@ == p@,
            forall|j: int| 0 <= j < i ==> x@[j] == y@[j],
        decreases y.len() - i,
    {
        if x[i] != y[i] {
            assert(x@.subrange(0, y@.len() as int)[i as int] != y@[i as int]);
            return false;
        }
        i += 1;
    }
    assert(x@.subrange(0, y@.len() as int) =~= y@);
    true
}

/// The pieces of `s` between occurrences of `sep`.
pub fn split_chars(s: &Vec<char>, sep: char) -> (r: Vec<Vec<char>>)
    ensures
        char_views(r@) == split_on(s@, sep),
{
    let mut parts: Vec<Vec<char>> = Vec::new();
    let mut cur: Vec<char> = Vec::new();
    let mut i: usize = 0;
    assert(s@.take(0) =~= Seq::<char>::empty());
    assert(char_views(parts@).push(cur@) =~= split_on(s@.take(0), sep));
    while i < s.len()
        invariant
            i <= s.len(),
            char_views(parts@).push(cur@) == split_on(s@.take(i as int), sep),
        decreases s.len() - i,
    {
        let c = s[i];
        let ghost pre = s@.take(i as int);
        assert(s@.take(i + 1).drop_last() =~= pre);
        assert(s@.take(i + 1).last() == c);
        if c == sep {
            let ghost old_parts = parts@;
            let done = cur;
            parts.push(done);
            cur = Vec::new();
            assert(char_views(parts@) =~= char_views(old_parts).push(done@));
            assert(char_views(parts@).push(cur@) =~= split_on(pre, sep).push(Seq::<char>::empty()));
        } else {
            let ghost old_cur = cur@;
            cur.push(c);
            let ghost r = split_on(pre, sep);
            assert(r.last() == old_cur);
            assert(char_views(parts@).push(cur@) =~= r.update(r.len() - 1, r.last().push(c)));
        }
        i += 1;
    }
    assert(s@.take(s.len() as int) =~= s@);
    let ghost old_parts = parts@;
    parts.push(cur);
    assert(char_views(parts@) =~= char_views(old_parts).push(cur@));
    parts
}

/// Pieces `from..` of `parts` glued together with `sep`.
pub fn join_from(parts: &Vec<Vec<char>>, from: usize, sep: &str) -> (r: Vec<char>)
    requires
        from <= parts.len(),
    ensures
        r@ == join_with(char_views(parts@).subrange(from as int, parts@.len() as int), sep@),
{
    let sepc = chars_of(sep);
    let ghost pv = char_views(parts@);
    let mut r: Vec<char> = Vec::new();
    let mut i: usize = from;
    assert(pv.subrange(from as int, from as int) =~= Seq::<Seq<char>>::empty());
    while i < parts.len()
        invariant
            from <= i <= parts.len(),
            pv == char_views(parts@),
            sepc@ == sep@,
            r@ == join_with(pv.subrange(from as int, i as int), sep@),
        decreases parts.len() - i,
    {
        proof {
            lemma_join_range_step(pv, from as int, i + 1, sep@);
        }
        if i > from {
            let mut k: usize = 0;
            let ghost base = r@;
            while k < sepc.len()
                invariant
                    k <= sepc.len(),
                    r@ == base + sepc@.take(k as int),
                decreases sepc.len() - k,
            {
                r.push(sepc[k]);
                k += 1;
                assert(base + sepc@.take(k as int) =~= (base + sepc@.take(k - 1)).push(
                    sepc@[k - 1],
                ));
            }
            assert(sepc@.take(k as int) =~= sepc@);
        }
        let ghost mid = r@;
        let mut k: usize = 0;
        let piece = &parts[i];
        assert(piece@ == pv[i as int]);
        while k < piece.len()
            invariant
                k <= piece.len(),
                r@ == mid + piece@.take(k as int),
            decreases piece.len() - k,
        {
            r.push(piece[k]);
            k += 1;
            assert(mid + piece@.take(k as int) =~= (mid + piece@.take(k - 1)).push(piece@[k - 1]));
        }
        assert(piece@.take(k as int) =~= piece@);
        assert(i > from || mid =~= Seq::<char>::empty());
        i += 1;
        assert(i - 1 > from || r@ =~= pv[from as int]);
    }
    r
}

/// The strings of `parts` glued together with `sep`.
pub fn join_strings(parts: &Vec<String>, sep: &str) -> (r: String)
    ensures
        r@ == join_with(string_views(parts@), sep@),
{
    let mut cs: Vec<Vec<char>> = Vec::new();
    let mut i: usize = 0;
    while i < parts.len()
        invariant
            i <= parts.len(),
            char_views(cs@) == string_views(parts@).take(i as int),
        decreases parts.len() - i,
    {
        let ghost old_cs = cs@;
        cs.push(chars_of(parts[i].as_str()));
        i += 1;
        assert(char_views(cs@) =~= char_views(old_cs).push(parts@[i - 1]@));
        assert(string_views(parts@).take(i as int) =~= string_views(parts@).take(i - 1).push(
            parts@[i - 1]@,
        ));
    }
    assert(string_views(parts@).take(i as int) =~= string_views(parts@));
    let r = join_from(&cs, 0, sep);
    assert(char_views(cs@).subrange(0, cs@.len() as int) =~= char_views(cs@));
    string_of(&r)
}

/// Whether `c` has the Unicode `White_Space` property.
pub fn white(c: char) -> (r: bool)
    ensures
        r == is_white(c),
{
    let u = c as u32;
    (0x09 <= u && u <= 0x0D) || u == 0x20 || u == 0x85 || u == 0xA0 || u == 0x1680 || (0x2000
        <= u && u <= 0x200A) || u == 0x2028 || u == 0x2029 || u == 0x202F || u == 0x205F || u
        == 0x3000
}

/// `s` without leading and trailing white space.
pub fn trim_chars(s: &Vec<char>) -> (r: Vec<char>)
    ensures
        r@ == trim(s@),
{
    let n = s.len();
    let mut a: usize = 0;
    assert(s@.subrange(0, n as int) =~= s@);
    while a < n && white(s[a])
        invariant
            a <= n,
            n == s.len(),
            trim_start(s@) == trim_start(s@.subrange(a as int, n as int)),
        decreases n - a,
    {
        assert(s@.subrange(a as int, n as int).drop_first() =~= s@.subrange(a + 1, n as int));
        a += 1;
    }
    assert(trim_start(s@) == s@.subrange(a as int, n as int));
    let ghost t = s@.subrange(a as int, n as int);
    let mut b: usize = n;
    assert(t.subrange(0, (n - a) as int) =~= t);
    while b > a && white(s[b - 1])
        invariant
            a <= b <= n,
            n == s.len(),
            t == s@.subrange(a as int, n as int),
            trim_end(t) == trim_end(s@.subrange(a as int, b as int)),
        decreases b - a,
    {
        assert(s@.subrange(a as int, b as int).drop_last() =~= s@.subrange(a as int, b - 1));
        b -= 1;
    }
    let mut r: Vec<char> = Vec::new();
    let mut k: usize = a;
    while k < b
        invariant
            a <= k <= b,
            b <= n,
            n == s.len(),
            r@ == s@.subrange(a as int, k as int),
        decreases b - k,
    {
        r.push(s[k]);
        k += 1;
        assert(s@.subrange(a as int, k as int) =~= s@.subrange(a as int, k - 1).push(s@[k - 1]));
    }
    r
}

/// The digit character of `d`.
fn digit_of(d: u64) -> (c: char)
    requires
        d < 10,
    ensures
        c == digit_char(d as nat),
{
    if d == 0 {
        '0'
    } else if d == 1 {
        '1'
    } else if d == 2 {
        '2'
    } else if d == 3 {
        '3'
    } else if d == 4 {
        '4'
    } else if d == 5 {
        '5'
    } else if d == 6 {
        '6'
    } else if d == 7 {
        '7'
    } else if d == 8 {
        '8'
    } else {
        '9'
    }
}

/// Appends the decimal text of `n` to `out`.
pub fn push_decimal(out: &mut String, n: u64)
    ensures
        final(out)@ == old(out)@ + decimal(n as nat),
    decreases n,
{
    if n >= 10 {
        push_decimal(out, n / 10);
    }
    out.push(digit_of(n % 10));
    proof {
        if n >= 10 {
            assert(old(out)@ + decimal((n / 10) as nat) + seq![digit_char((n % 10) as nat)]
                =~= old(out)@ + decimal(n as nat));
        } else {
            assert(old(out)@.push(digit_char((n % 10) as nat)) =~= old(out)@ + decimal(n as nat));
        }
    }
}

/// The decimal text of an unsigned integer.
pub fn decimal_text(n: u64) -> (r: String)
    ensures
        r@ == decimal(n as nat),
{
    let mut s = String::new();
    push_decimal(&mut s, n);
    assert(Seq::<char>::empty() + decimal(n as nat) =~= decimal(n as nat));
    s
}

/// The decimal text of a signed integer.
pub fn signed_decimal_text(n: i64) -> (r: String)
    ensures
        r@ == signed_decimal(n as int),
{
    let mut s = String::new();
    if n < 0 {
        s.push('-');
        let m: u64 = if n == i64::MIN {
            9223372036854775808u64
        } else {
            (-n) as u64
        };
        push_decimal(&mut s, m);
    } else {
        push_decimal(&mut s, n as u64);
        assert(Seq::<char>::empty() + decimal(n as nat) =~= decimal(n as nat));
    }
    s
}

/// The value of the decimal text `s` when it is an unsigned integer no
/// larger than `max`, as `str::parse` reads one; `None` otherwise.
pub fn parse_bounded(s: &str, max: u64) -> (r: Option<u64>)
    ensures
        r matches Some(v) ==> parse_unsigned(s@, max as nat) == Some(v as nat),
        r is None ==> parse_unsigned(s@, max as nat) is None,
{
    let cs = chars_of(s);
    let start: usize = if cs.len() > 0 && cs[0] == '+' {
        1
    } else {
        0
    };
    let ghost b = unsigned_body(s@);
    assert(b =~= cs@.subrange(start as int, cs@.len() as int));
    if start >= cs.len() {
        assert(b.len() == 0);
        return None;
    }
    let mut acc: u64 = 0;
    let mut i: usize = start;
    while i < cs.len()
        invariant
            start <= i <= cs.len(),
            cs@ == s@,
            b == unsigned_body(s@),
            b == cs@.subrange(start as int, cs@.len() as int),
            acc <= max,
            all_digits(b.take(i - start)),
            acc == digits_value(b.take(i - start)),
        decreases cs.len() - i,
    {
        let c = cs[i];
        let ghost k = i - start;
        assert(b[k] == c);
        if !('0' <= c && c <= '9') {
            assert(!all_digits(b)) by {
                assert(!is_digit(b[k]));
            }
            return None;
        }
        let d = (c as u32 - '0' as u32) as u64;
        let next: u128 = acc as u128 * 10 + d as u128;
        assert(b.take(k + 1).drop_last() =~= b.take(k));
        assert(b.take(k + 1).last() == c);
        assert(all_digits(b.take(k + 1))) by {
            assert forall|j: int| 0 <= j < k + 1 implies #[trigger] is_digit(b.take(k + 1)[j]) by {
                if j < k {
                    assert(b.take(k + 1)[j] == b.take(k)[j]);
                }
            }
        }
        assert(digit_value(c) == d);
        assert(next == digits_value(b.take(k + 1)));
        if next > max as u128 {
            proof {
                if all_digits(b) {
                    lemma_digits_value_grows(b, k + 1);
                }
            }
            return None;
        }
        acc = next as u64;
        i += 1;
    }
    assert(b.take(i - start) =~= b);
    Some(acc)
}

} // verus!
