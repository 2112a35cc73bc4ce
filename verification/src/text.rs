//! Text utilities shared by the renderers: character sequences, decimal
//! numerals, padding, joining, substitution and lexicographic comparison.
//!
//! Every contract here is stated over `Seq<char>`, the view of `String`
//! and `str`.
use vstd::prelude::*;

verus! {

/// The characters of a string, in order.
pub fn chars_of(s: &str) -> (v: Vec<char>)
    ensures
        v@ == s@,
{
    let mut v: Vec<char> = Vec::new();
    for c in it: s.chars()
        invariant
            v@ == it.seq().take(it.index() as int),
            it.seq() == s@,
    {
        v.push(c);
    }
    v
}

/// Collects characters into a `String` through `Iterator::collect`, which
/// std documents as building the string made of exactly the characters
/// yielded, in order.
#[verifier::external_body]
pub(crate) fn string_of(v: &Vec<char>) -> (s: String)
    ensures
        s@ == v@,
{
    v.iter().collect()
}

/// The sequence made of `n` copies of `c`.
pub open spec fn repeat_char(c: char, n: nat) -> Seq<char> {
    Seq::new(n, |i: int| c)
}

/// `s` followed by as many spaces as are needed to reach `width` characters.
pub open spec fn pad_right(s: Seq<char>, width: nat) -> Seq<char> {
    if s.len() >= width {
        s
    } else {
        s + repeat_char(' ', (width - s.len()) as nat)
    }
}

/// A string of `n` copies of `c`.
pub fn repeat(c: char, n: usize) -> (r: String)
    ensures
        r@ == repeat_char(c, n as nat),
{
    let mut v: Vec<char> = Vec::new();
    let mut i: usize = 0;
    while i < n
        invariant
            i <= n,
            v@ == repeat_char(c, i as nat),
        decreases n - i,
    {
        v.push(c);
        i += 1;
        assert(v@ =~= repeat_char(c, i as nat));
    }
    string_of(&v)
}

/// Left-aligns `s` in a field of `width` characters, as `{:<width$}` does.
pub fn pad(s: &str, width: usize) -> (r: String)
    ensures
        r@ == pad_right(s@, width as nat),
{
    let mut v = chars_of(s);
    if v.len() >= width {
        return string_of(&v);
    }
    let ghost start = v@;
    while v.len() < width
        invariant
            start == s@,
            start.len() <= v.len() <= width,
            v@ == start + repeat_char(' ', (v.len() - start.len()) as nat),
        decreases width - v.len(),
    {
        v.push(' ');
        assert(v@ =~= start + repeat_char(' ', (v.len() - start.len()) as nat));
    }
    string_of(&v)
}

/// The character that writes the digit `d` in base ten.
pub open spec fn digit_char(d: nat) -> char
    recommends
        d < 10,
{
    ((d + 48) as u8) as char
}

/// The base-ten numeral of `n`, without sign or leading zeros.
pub open spec fn dec_digits(n: nat) -> Seq<char>
    decreases n,
{
    if n < 10 {
        seq![digit_char(n)]
    } else {
        dec_digits(n / 10).push(digit_char(n % 10))
    }
}

fn push_dec_digits(n: u128, out: &mut Vec<char>)
    ensures
        final(out)@ == old(out)@ + dec_digits(n as nat),
    decreases n,
{
    if n >= 10 {
        push_dec_digits(n / 10, out);
    }
    let d: u8 = (n % 10) as u8;
    let c: char = (d + 48u8) as char;
    assert(c == digit_char((n % 10) as nat));
    out.push(c);
    assert(final(out)@ =~= old(out)@ + dec_digits(n as nat));
}

/// The base-ten numeral of `n`, as `{}` prints an unsigned integer.
pub fn decimal(n: u128) -> (r: String)
    ensures
        r@ == dec_digits(n as nat),
{
    let mut v: Vec<char> = Vec::new();
    push_dec_digits(n, &mut v);
    assert(v@ =~= dec_digits(n as nat));
    string_of(&v)
}

/// The base-ten numeral of a `usize`.
pub fn decimal_usize(n: usize) -> (r: String)
    ensures
        r@ == dec_digits(n as nat),
{
    decimal(n as u128)
}

/// The concatenation of `parts`, each one but the last followed by `sep`.
pub open spec fn join_spec(parts: Seq<Seq<char>>, sep: Seq<char>) -> Seq<char>
    decreases parts.len(),
{
    if parts.len() == 0 {
        Seq::empty()
    } else if parts.len() == 1 {
        parts[0]
    } else {
        join_spec(parts.drop_last(), sep) + sep + parts.last()
    }
}

/// The views of a vector of strings.
pub open spec fn views(v: Seq<String>) -> Seq<Seq<char>> {
    Seq::new(v.len(), |i: int| v[i]@)
}

/// Joins `parts` with `sep` between neighbours, as `[String]::join` does.
pub fn join(parts: &Vec<String>, sep: &str) -> (r: String)
    ensures
        r@ == join_spec(views(parts@), sep@),
{
    let mut out = String::new();
    let mut i: usize = 0;
    while i < parts.len()
        invariant
            i <= parts.len(),
            out@ == join_spec(views(parts@).take(i as int), sep@),
        decreases parts.len() - i,
    {
        let ghost before = views(parts@).take(i as int);
        let ghost after = views(parts@).take(i + 1);
        proof {
            assert(after.drop_last() =~= before);
            assert(after.last() == parts@[i as int]@);
        }
        if i > 0 {
            out.append(sep);
        }
        out.append(parts[i].as_str());
        proof {
            if i == 0 {
                assert(out@ =~= parts@[0]@);
            }
        }
        i += 1;
    }
    assert(views(parts@).take(parts.len() as int) =~= views(parts@));
    out
}

/// Strict lexicographic order on character sequences, by code point: `a`
/// is a proper prefix of `b`, or they first differ at a position where
/// `a` holds the smaller character.
pub open spec fn lex_lt(a: Seq<char>, b: Seq<char>) -> bool {
    exists|k: int| #[trigger]
        lex_lt_at(a, b, k)
}

/// `a` and `b` agree before position `k`, and `a` is smaller there.
pub open spec fn lex_lt_at(a: Seq<char>, b: Seq<char>, k: int) -> bool {
    &&& 0 <= k <= a.len()
    &&& k <= b.len()
    &&& a.take(k) == b.take(k)
    &&& (k == a.len() && k < b.len() || (k < a.len() && k < b.len() && a[k] < b[k]))
}

/// The order is irreflexive.
pub proof fn lemma_lex_lt_irreflexive(a: Seq<char>)
    ensures
        !lex_lt(a, a),
{
}

/// The order is transitive.
pub proof fn lemma_lex_lt_transitive(a: Seq<char>, b: Seq<char>, c: Seq<char>)
    requires
        lex_lt(a, b),
        lex_lt(b, c),
    ensures
        lex_lt(a, c),
{
    let k1 = choose|k: int| lex_lt_at(a, b, k);
    let k2 = choose|k: int| lex_lt_at(b, c, k);
    let k = if k1 <= k2 {
        k1
    } else {
        k2
    };
    assert(a.take(k) =~= a.take(k1).take(k));
    assert(b.take(k) =~= b.take(k1).take(k));
    assert(b.take(k) =~= b.take(k2).take(k));
    assert(c.take(k) =~= c.take(k2).take(k));
    if k1 < k2 {
        assert(b.take(k2)[k1] == c.take(k2)[k1]);
    } else if k2 < k1 {
        assert(a.take(k1)[k2] == b.take(k1)[k2]);
    }
    assert(lex_lt_at(a, c, k));
}

/// How two character sequences compare.
#[derive(Clone, Copy, PartialEq, Eq, Structural, Debug)]
pub enum Order {
    Before,
    Same,
    After,
}

/// Compares two strings lexicographically by code point, which is the
/// order of `str`.
pub fn compare(a: &str, b: &str) -> (r: Order)
    ensures
        r == Order::Before <==> lex_lt(a@, b@),
        r == Order::Same <==> a@ == b@,
        r == Order::After <==> lex_lt(b@, a@),
{
    let x = chars_of(a);
    let y = chars_of(b);
    let mut i: usize = 0;
    while i < x.len() && i < y.len()
        invariant
            i <= x.len(),
            i <= y.len(),
            x@.take(i as int) == y@.take(i as int),
            x@ == a@,
            y@ == b@,
        decreases x.len() - i,
    {
        let p: char = x[i];
        let q: char = y[i];
        if p < q {
            proof {
                assert(lex_lt_at(a@, b@, i as int));
                lemma_lex_lt_asymmetric(a@, b@);
            }
            return Order::Before;
        }
        if q < p {
            proof {
                assert(lex_lt_at(b@, a@, i as int));
                lemma_lex_lt_asymmetric(b@, a@);
            }
            return Order::After;
        }
        assert(x@[i as int] == y@[i as int]);
        assert(x@.take(i + 1) =~= x@.take(i as int).push(x@[i as int]));
        assert(y@.take(i + 1) =~= y@.take(i as int).push(y@[i as int]));
        i += 1;
    }
    if i < y.len() {
        proof {
            assert(lex_lt_at(a@, b@, i as int));
            lemma_lex_lt_asymmetric(a@, b@);
        }
        Order::Before
    } else if i < x.len() {
        proof {
            assert(lex_lt_at(b@, a@, i as int));
            lemma_lex_lt_asymmetric(b@, a@);
        }
        Order::After
    } else {
        proof {
            assert(x@.take(i as int) =~= x@);
            assert(y@.take(i as int) =~= y@);
            lemma_lex_lt_irreflexive(a@);
        }
        Order::Same
    }
}

/// No two sequences are each before the other, and one that is before
/// another differs from it.
pub proof fn lemma_lex_lt_asymmetric(a: Seq<char>, b: Seq<char>)
    requires
        lex_lt(a, b),
    ensures
        !lex_lt(b, a),
        a != b,
{
    if lex_lt(b, a) {
        lemma_lex_lt_transitive(a, b, a);
        lemma_lex_lt_irreflexive(a);
    }
    lemma_lex_lt_irreflexive(a);
}

/// Appends the characters of `more` to `out`.
pub fn append_chars(out: &mut Vec<char>, more: &Vec<char>)
    ensures
        final(out)@ == old(out)@ + more@,
{
    let mut i: usize = 0;
    while i < more.len()
        invariant
            i <= more.len(),
            out@ == old(out)@ + more@.take(i as int),
        decreases more.len() - i,
    {
        out.push(more[i]);
        i += 1;
        assert(out@ =~= old(out)@ + more@.take(i as int));
    }
    assert(more@.take(more.len() as int) =~= more@);
}

/// `pat` stands in `s` at position `i`.
pub open spec fn occurs_at(s: Seq<char>, i: int, pat: Seq<char>) -> bool {
    0 <= i && i + pat.len() <= s.len() && s.subrange(i, i + pat.len()) == pat
}

/// `s` with every occurrence of `from` replaced by `to`, found from left
/// to right without overlap; an empty `from` occurs before every character
/// and at the end.
pub open spec fn replace_all(s: Seq<char>, from: Seq<char>, to: Seq<char>) -> Seq<char>
    decreases s.len(),
{
    if from.len() == 0 {
        if s.len() == 0 {
            to
        } else {
            to + seq![s[0]] + replace_all(s.skip(1), from, to)
        }
    } else if occurs_at(s, 0, from) {
        to + replace_all(s.skip(from.len() as int), from, to)
    } else if s.len() == 0 {
        s
    } else {
        seq![s[0]] + replace_all(s.skip(1), from, to)
    }
}

/// The character `c` does not stand in `s`.
pub open spec fn free_of(s: Seq<char>, c: char) -> bool {
    forall|i: int| 0 <= i < s.len() ==> #[trigger] s[i] != c
}

/// Taking a character out of a text in which it does not stand leaves
/// the text as it is.
pub proof fn lemma_replace_absent(s: Seq<char>, c: char)
    requires
        free_of(s, c),
    ensures
        replace_all(s, seq![c], Seq::empty()) == s,
    decreases s.len(),
{
    let from = seq![c];
    if s.len() > 0 {
        assert(s[0] != c);
        assert(!occurs_at(s, 0, from)) by {
            if occurs_at(s, 0, from) {
                assert(s.subrange(0, 1)[0] == from[0]);
            }
        }
        let rest = s.skip(1);
        assert forall|i: int| 0 <= i < rest.len() implies #[trigger] rest[i] != c by {
            assert(rest[i] == s[i + 1]);
        }
        lemma_replace_absent(rest, c);
        assert(seq![s[0]] + rest =~= s);
    } else {
        assert(!occurs_at(s, 0, from));
    }
}

/// Taking a character out of a text that begins with it, and in which it
/// does not stand again, leaves what follows it.
pub proof fn lemma_replace_first(s: Seq<char>, c: char)
    requires
        free_of(s, c),
    ensures
        replace_all(seq![c] + s, seq![c], Seq::empty()) == s,
{
    let from = seq![c];
    let all = from + s;
    assert(all.subrange(0, 1) =~= from);
    assert(occurs_at(all, 0, from));
    assert(all.skip(1) =~= s);
    lemma_replace_absent(s, c);
    assert(Seq::<char>::empty() + s =~= s);
}

/// Taking a character out of a text that ends with it, and in which it
/// does not stand before, leaves what stands before it.
pub proof fn lemma_replace_last(s: Seq<char>, c: char)
    requires
        free_of(s, c),
    ensures
        replace_all(s + seq![c], seq![c], Seq::empty()) == s,
    decreases s.len(),
{
    let from = seq![c];
    let all = s + from;
    if s.len() == 0 {
        assert(all =~= from);
        assert(all.subrange(0, 1) =~= from);
        assert(occurs_at(all, 0, from));
        let none = Seq::<char>::empty();
        assert(all.skip(1) =~= none);
        assert(!occurs_at(none, 0, from));
        assert(replace_all(none, from, none) == none);
        assert(replace_all(all, from, none) == none + replace_all(all.skip(1), from, none));
        assert(none + none =~= s);
    } else {
        assert(all[0] == s[0]);
        assert(s[0] != c);
        assert(!occurs_at(all, 0, from)) by {
            if occurs_at(all, 0, from) {
                assert(all.subrange(0, 1)[0] == from[0]);
            }
        }
        let rest = s.skip(1);
        assert forall|i: int| 0 <= i < rest.len() implies #[trigger] rest[i] != c by {
            assert(rest[i] == s[i + 1]);
        }
        lemma_replace_last(rest, c);
        assert(all.skip(1) =~= rest + from);
        assert(replace_all(all, from, Seq::empty()) == seq![all[0]] + replace_all(
            all.skip(1),
            from,
            Seq::empty(),
        ));
        assert(seq![all[0]] + rest =~= s);
    }
}

/// A character that stands in none of the parts and not in what joins
/// them does not stand in the joined text.
pub proof fn lemma_join_free(parts: Seq<Seq<char>>, sep: Seq<char>, c: char)
    requires
        free_of(sep, c),
        forall|i: int| 0 <= i < parts.len() ==> free_of(#[trigger] parts[i], c),
    ensures
        free_of(join_spec(parts, sep), c),
    decreases parts.len(),
{
    if parts.len() == 1 {
        assert(free_of(parts[0], c));
    } else if parts.len() > 1 {
        let before = parts.drop_last();
        assert forall|i: int| 0 <= i < before.len() implies free_of(#[trigger] before[i], c) by {
            assert(before[i] == parts[i]);
        }
        lemma_join_free(before, sep, c);
        assert(free_of(parts[parts.len() - 1], c));
    }
}

fn matches_at(text: &Vec<char>, i: usize, pat: &Vec<char>) -> (r: bool)
    requires
        i <= text.len(),
    ensures
        r == occurs_at(text@, i as int, pat@),
{
    if pat.len() > text.len() - i {
        return false;
    }
    let mut k: usize = 0;
    while k < pat.len()
        invariant
            k <= pat.len(),
            i + pat.len() <= text.len(),
            text@.subrange(i as int, i + k) == pat@.take(k as int),
        decreases pat.len() - k,
    {
        if text[i + k] != pat[k] {
            assert(text@.subrange(i as int, i + pat.len())[k as int] != pat@[k as int]);
            return false;
        }
        k += 1;
        assert(text@.subrange(i as int, i + k) =~= pat@.take(k as int)) by {
            assert(text@.subrange(i as int, i + k) =~= text@.subrange(i as int, i + k - 1).push(
                text@[i + k - 1],
            ));
            assert(pat@.take(k as int) =~= pat@.take(k - 1).push(pat@[k - 1]));
        }
    }
    assert(pat@.take(pat.len() as int) =~= pat@);
    true
}

/// Replaces every occurrence of `from` in `s` by `to`, as `str::replace`
/// does.
pub fn replace(s: &str, from: &str, to: &str) -> (r: String)
    ensures
        r@ == replace_all(s@, from@, to@),
{
    let text = chars_of(s);
    let pat = chars_of(from);
    let sub = chars_of(to);
    let mut out: Vec<char> = Vec::new();
    let mut i: usize = 0;
    assert(text@.skip(0) =~= text@);
    while i < text.len()
        invariant
            i <= text.len(),
            out@ + replace_all(text@.skip(i as int), pat@, sub@) == replace_all(
                text@,
                pat@,
                sub@,
            ),
        decreases text.len() - i,
    {
        let ghost rest = text@.skip(i as int);
        if pat.len() == 0 {
            assert(rest.skip(1) =~= text@.skip(i + 1));
            append_chars(&mut out, &sub);
            out.push(text[i]);
            i += 1;
            assert(out@ + replace_all(text@.skip(i as int), pat@, sub@) =~= replace_all(
                text@,
                pat@,
                sub@,
            ));
        } else if matches_at(&text, i, &pat) {
            assert(rest.subrange(0, pat.len() as int) =~= text@.subrange(
                i as int,
                i + pat.len(),
            ));
            assert(rest.skip(pat.len() as int) =~= text@.skip(i + pat.len()));
            append_chars(&mut out, &sub);
            i += pat.len();
            assert(out@ + replace_all(text@.skip(i as int), pat@, sub@) =~= replace_all(
                text@,
                pat@,
                sub@,
            ));
        } else {
            assert(!occurs_at(rest, 0, pat@)) by {
                if i + pat.len() <= text.len() {
                    assert(rest.subrange(0, pat.len() as int) =~= text@.subrange(
                        i as int,
                        i + pat.len(),
                    ));
                }
            }
            assert(rest.skip(1) =~= text@.skip(i + 1));
            out.push(text[i]);
            i += 1;
            assert(out@ + replace_all(text@.skip(i as int), pat@, sub@) =~= replace_all(
                text@,
                pat@,
                sub@,
            ));
        }
    }
    assert(text@.skip(text.len() as int) =~= Seq::<char>::empty());
    if pat.len() == 0 {
        append_chars(&mut out, &sub);
    }
    assert(out@ =~= replace_all(text@, pat@, sub@));
    string_of(&out)
}

/// The first position in `names` that holds `name`, or the length of
/// `names` if none does.
pub open spec fn first_index(names: Seq<Seq<char>>, name: Seq<char>) -> int
    decreases names.len(),
{
    if names.len() == 0 {
        0
    } else if names[0] == name {
        0
    } else {
        1 + first_index(names.skip(1), name)
    }
}

/// The position is in range, no earlier entry is `name`, and the entry
/// found is `name`.
pub proof fn lemma_first_index(names: Seq<Seq<char>>, name: Seq<char>)
    ensures
        0 <= first_index(names, name) <= names.len(),
        forall|j: int| 0 <= j < first_index(names, name) ==> names[j] != name,
        first_index(names, name) < names.len() ==> names[first_index(names, name)] == name,
    decreases names.len(),
{
    if names.len() > 0 && names[0] != name {
        lemma_first_index(names.skip(1), name);
        let k = first_index(names.skip(1), name);
        assert forall|j: int| 0 <= j < 1 + k implies names[j] != name by {
            if j > 0 {
                assert(names.skip(1)[j - 1] == names[j]);
            }
        }
        if k < names.len() - 1 {
            assert(names.skip(1)[k] == names[k + 1]);
        }
    }
}

/// The first position of `name` among `names`, or their number.
pub fn find(names: &Vec<String>, name: &str) -> (r: usize)
    ensures
        r == first_index(views(names@), name@),
        r <= names@.len(),
{
    proof {
        lemma_first_index(views(names@), name@);
    }
    let target = String::from_str(name);
    let mut i: usize = 0;
    while i < names.len()
        invariant
            i <= names.len(),
            target@ == name@,
            forall|j: int| 0 <= j < i ==> views(names@)[j] != name@,
            0 <= first_index(views(names@), name@) <= names@.len(),
            forall|j: int|
                0 <= j < first_index(views(names@), name@) ==> views(names@)[j] != name@,
            first_index(views(names@), name@) < names@.len() ==> views(names@)[first_index(
                views(names@),
                name@,
            )] == name@,
        decreases names.len() - i,
    {
        assert(views(names@)[i as int] == names@[i as int]@);
        if names[i] == target {
            return i;
        }
        i += 1;
    }
    i
}

/// The value of a digit in a base up to thirty-six: `0` to `9`, then the
/// letters in either case; nothing for a character that is no digit of
/// the base.
pub open spec fn digit_of(c: char, radix: int) -> Option<int> {
    let v = if '0' <= c <= '9' {
        c as int - 48
    } else if 'a' <= c <= 'z' {
        c as int - 97 + 10
    } else if 'A' <= c <= 'Z' {
        c as int - 65 + 10
    } else {
        radix
    };
    if v < radix {
        Some(v)
    } else {
        None
    }
}

/// The number that the digits write in the base, most significant first;
/// nothing where a character is no digit of the base.
pub open spec fn digits_value(s: Seq<char>, radix: int) -> Option<int>
    decreases s.len(),
{
    if s.len() == 0 {
        Some(0)
    } else {
        match (digits_value(s.drop_last(), radix), digit_of(s.last(), radix)) {
            (Some(v), Some(d)) => Some(v * radix + d),
            _ => None,
        }
    }
}

/// The number that a numeral writes: at least one digit, nothing but
/// digits, and a value of at most `max`.
pub open spec fn numeral(s: Seq<char>, radix: int, max: int) -> Option<int> {
    if s.len() == 0 {
        None
    } else {
        match digits_value(s, radix) {
            Some(v) => if v <= max {
                Some(v)
            } else {
                None
            },
            None => None,
        }
    }
}

proof fn lemma_digits_grow(s: Seq<char>, k: int, radix: int)
    requires
        0 <= k <= s.len(),
        radix >= 1,
    ensures
        digits_value(s.take(k), radix) is None ==> digits_value(s, radix) is None,
        digits_value(s, radix) is Some ==> 0 <= digits_value(s.take(k), radix)->0
            <= digits_value(s, radix)->0,
    decreases s.len() - k,
{
    if k < s.len() {
        lemma_digits_grow(s, k + 1, radix);
        assert(s.take(k + 1).drop_last() =~= s.take(k));
        lemma_digits_nonnegative(s.take(k), radix);
        if digits_value(s.take(k + 1), radix) is Some {
            let v = digits_value(s.take(k), radix)->0;
            let d = digit_of(s.take(k + 1).last(), radix)->0;
            assert(v * radix + d >= v) by (nonlinear_arith)
                requires
                    v >= 0,
                    radix >= 1,
                    d >= 0,
            ;
        }
    } else {
        assert(s.take(k) =~= s);
        lemma_digits_nonnegative(s, radix);
    }
}

proof fn lemma_digits_nonnegative(s: Seq<char>, radix: int)
    requires
        radix >= 1,
    ensures
        digits_value(s, radix) is Some ==> digits_value(s, radix)->0 >= 0,
    decreases s.len(),
{
    if s.len() > 0 {
        lemma_digits_nonnegative(s.drop_last(), radix);
        if digits_value(s, radix) is Some {
            let v = digits_value(s.drop_last(), radix)->0;
            let d = digit_of(s.last(), radix)->0;
            assert(v * radix + d >= 0) by (nonlinear_arith)
                requires
                    v >= 0,
                    radix >= 1,
                    d >= 0,
            ;
        }
    }
}

fn digit_value(c: char, radix: u32) -> (r: Option<u32>)
    requires
        2 <= radix <= 36,
    ensures
        match r {
            Some(d) => digit_of(c, radix as int) == Some(d as int) && d < radix,
            None => digit_of(c, radix as int) is None,
        },
{
    let v: u32 = if '0' <= c && c <= '9' {
        (c as u32) - 48
    } else if 'a' <= c && c <= 'z' {
        (c as u32) - 97 + 10
    } else if 'A' <= c && c <= 'Z' {
        (c as u32) - 65 + 10
    } else {
        radix
    };
    if v < radix {
        Some(v)
    } else {
        None
    }
}

/// Reads a numeral in the base `radix` that writes at most `max`.
pub fn parse_radix(s: &str, radix: u32, max: u128) -> (r: Option<u128>)
    requires
        2 <= radix <= 36,
    ensures
        match r {
            Some(v) => numeral(s@, radix as int, max as int) == Some(v as int),
            None => numeral(s@, radix as int, max as int) is None,
        },
{
    let chars = chars_of(s);
    if chars.len() == 0 {
        return None;
    }
    let mut acc: u128 = 0;
    let mut i: usize = 0;
    assert(chars@.take(0) =~= Seq::<char>::empty());
    while i < chars.len()
        invariant
            i <= chars.len(),
            chars@ == s@,
            2 <= radix <= 36,
            digits_value(chars@.take(i as int), radix as int) == Some(acc as int),
            acc <= max,
        decreases chars.len() - i,
    {
        proof {
            assert(chars@.take(i + 1).drop_last() =~= chars@.take(i as int));
            assert(chars@.take(i + 1).last() == chars@[i as int]);
            lemma_digits_grow(chars@, i + 1, radix as int);
        }
        let d = match digit_value(chars[i], radix) {
            Some(d) => d,
            None => {
                return None;
            },
        };
        // `acc * radix + d <= max`, written without a product that could
        // leave the machine's range.
        if acc > max / (radix as u128) {
            proof {
                lemma_over_limit(acc as int, radix as int, d as int, max as int);
            }
            return None;
        }
        assert(acc * radix <= max) by (nonlinear_arith)
            requires
                acc <= max / (radix as u128),
                radix >= 1,
        ;
        let scaled: u128 = acc * (radix as u128);
        if (d as u128) > max - scaled {
            return None;
        }
        acc = scaled + d as u128;
        i += 1;
    }
    assert(chars@.take(chars.len() as int) =~= chars@);
    Some(acc)
}

proof fn lemma_over_limit(acc: int, radix: int, d: int, max: int)
    requires
        radix >= 2,
        d >= 0,
        max >= 0,
        acc > max / radix,
    ensures
        acc * radix + d > max,
{
    vstd::arithmetic::div_mod::lemma_fundamental_div_mod(max, radix);
    let q = max / radix;
    assert(acc * radix >= (q + 1) * radix) by (nonlinear_arith)
        requires
            acc >= q + 1,
            radix >= 2,
    ;
    assert((q + 1) * radix == radix * q + radix) by (nonlinear_arith);
    vstd::arithmetic::div_mod::lemma_mod_bound(max, radix);
}

} // verus!
