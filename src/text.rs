use vstd::prelude::*;

verus! {

/// The views of a sequence of strings.
pub open spec fn views(v: Seq<String>) -> Seq<Seq<char>> {
    v.map_values(|s: String| s@)
}

/// The character of a decimal digit.
pub open spec fn digit_char(d: nat) -> char {
    seq!['0', '1', '2', '3', '4', '5', '6', '7', '8', '9'][d as int]
}

/// The decimal digits of a natural number, most significant first.
pub open spec fn digits_text(n: nat) -> Seq<char>
    decreases n,
{
    if n < 10 {
        seq![digit_char(n)]
    } else {
        digits_text(n / 10).push(digit_char(n % 10))
    }
}

/// The decimal text of an integer, with a leading minus sign when negative.
pub open spec fn decimal_text(n: int) -> Seq<char> {
    if n < 0 {
        seq!['-'] + digits_text((-n) as nat)
    } else {
        digits_text(n as nat)
    }
}

/// The items joined together with `sep` between each two neighbours.
pub open spec fn join_text(items: Seq<Seq<char>>, sep: Seq<char>) -> Seq<char>
    decreases items.len(),
{
    if items.len() == 0 {
        Seq::empty()
    } else if items.len() == 1 {
        items[0]
    } else {
        join_text(items.drop_last(), sep) + sep + items.last()
    }
}

/// A lower-case hexadecimal digit.
pub open spec fn hex_char(d: nat) -> char {
    seq!['0', '1', '2', '3', '4', '5', '6', '7', '8', '9', 'a', 'b', 'c', 'd', 'e', 'f'][d as int]
}

/// How one character is written inside a JSON string: `"` and `\` escaped,
/// the short escapes for backspace, tab, line feed, form feed and carriage
/// return, other control characters below 0x20 as `\u00` and two hex digits,
/// and any other character as it is.
pub open spec fn json_escape_char(c: char) -> Seq<char> {
    if c == '"' {
        seq!['\\', '"']
    } else if c == '\\' {
        seq!['\\', '\\']
    } else if c == '\u{8}' {
        seq!['\\', 'b']
    } else if c == '\t' {
        seq!['\\', 't']
    } else if c == '\n' {
        seq!['\\', 'n']
    } else if c == '\u{c}' {
        seq!['\\', 'f']
    } else if c == '\r' {
        seq!['\\', 'r']
    } else if (c as nat) < 0x20 {
        seq!['\\', 'u', '0', '0', hex_char((c as nat) / 16), hex_char((c as nat) % 16)]
    } else {
        seq![c]
    }
}

/// The characters of `s`, each written as inside a JSON string.
pub open spec fn json_escape(s: Seq<char>) -> Seq<char>
    decreases s.len(),
{
    if s.len() == 0 {
        Seq::empty()
    } else {
        json_escape(s.drop_last()) + json_escape_char(s.last())
    }
}

/// The JSON string literal that encodes `s`: its escaped characters in quotes.
pub open spec fn json_string_of(s: Seq<char>) -> Seq<char> {
    seq!['"'] + json_escape(s) + seq!['"']
}

/// Relies on serde_json::to_string on a `str`: it writes the text in quotes,
/// escaping characters by serde_json's table (ser.rs `ESCAPE` and
/// `write_char_escape`). Writing into its in-memory buffer cannot fail, so the
/// result is always present.
#[verifier::external_body]
pub(crate) fn json_string(s: &str) -> (r: Option<String>)
    ensures
        r is Some,
        r matches Some(t) ==> t@ == json_string_of(s@),
{
    serde_json::to_string(s).ok()
}

fn digit_str(d: u64) -> (r: &'static str)
    requires
        d < 10,
    ensures
        r@ == seq![digit_char(d as nat)],
{
    proof {
        reveal_strlit("0");
        reveal_strlit("1");
        reveal_strlit("2");
        reveal_strlit("3");
        reveal_strlit("4");
        reveal_strlit("5");
        reveal_strlit("6");
        reveal_strlit("7");
        reveal_strlit("8");
        reveal_strlit("9");
    }
    let r = match d {
        0 => "0",
        1 => "1",
        2 => "2",
        3 => "3",
        4 => "4",
        5 => "5",
        6 => "6",
        7 => "7",
        8 => "8",
        _ => "9",
    };
    assert(r@ =~= seq![digit_char(d as nat)]);
    r
}

fn push_digits(out: &mut String, m: u64)
    ensures
        final(out)@ == old(out)@ + digits_text(m as nat),
    decreases m,
{
    if m >= 10 {
        push_digits(out, m / 10);
    }
    out.append(digit_str(m % 10));
    assert(final(out)@ =~= old(out)@ + digits_text(m as nat));
}

/// The decimal text of `n`.
pub fn decimal(n: i64) -> (r: String)
    ensures
        r@ == decimal_text(n as int),
{
    let mut out = String::new();
    if n < 0 {
        out.append("-");
        let m: u64 = (0i128 - n as i128) as u64;
        push_digits(&mut out, m);
        proof {
            reveal_strlit("-");
            assert(out@ =~= decimal_text(n as int));
        }
    } else {
        push_digits(&mut out, n as u64);
        assert(out@ =~= decimal_text(n as int));
    }
    out
}

/// The strings joined together with `sep` between each two neighbours.
pub fn join(items: &Vec<String>, sep: &str) -> (r: String)
    ensures
        r@ == join_text(views(items@), sep@),
{
    let mut out = String::new();
    let n = items.len();
    let mut i: usize = 0;
    while i < n
        invariant
            n == items@.len(),
            i <= n,
            out@ == join_text(views(items@.take(i as int)), sep@),
        decreases n - i,
    {
        if i > 0 {
            out.append(sep);
        }
        out.append(items[i].as_str());
        proof {
            let a = views(items@.take(i as int));
            let b = views(items@.take(i + 1));
            assert(b.drop_last() =~= a);
            assert(b.last() == items@[i as int]@);
            assert(out@ =~= join_text(b, sep@));
        }
        i = i + 1;
    }
    proof {
        assert(items@.take(n as int) =~= items@);
    }
    out
}

/// Whether `p` is a prefix of `s`.
pub open spec fn is_prefix(p: Seq<char>, s: Seq<char>) -> bool {
    p.len() <= s.len() && s.subrange(0, p.len() as int) == p
}

/// Whether `s` starts with `prefix`.
pub fn starts_with(s: &str, prefix: &str) -> (r: bool)
    ensures
        r == is_prefix(prefix@, s@),
{
    let n = prefix.unicode_len();
    if n > s.unicode_len() {
        return false;
    }
    let mut i: usize = 0;
    while i < n
        invariant
            n == prefix@.len(),
            n <= s@.len(),
            i <= n,
            forall|j: int| 0 <= j < i ==> s@[j] == prefix@[j],
        decreases n - i,
    {
        if s.get_char(i) != prefix.get_char(i) {
            assert(s@.subrange(0, n as int)[i as int] != prefix@[i as int]);
            return false;
        }
        i = i + 1;
    }
    assert(s@.subrange(0, n as int) =~= prefix@);
    true
}

proof fn lemma_escape_concat(a: Seq<char>, b: Seq<char>)
    ensures
        json_escape(a + b) == json_escape(a) + json_escape(b),
    decreases b.len(),
{
    if b.len() == 0 {
        assert(a + b =~= a);
        assert(json_escape(a) + json_escape(b) =~= json_escape(a));
    } else {
        assert((a + b).drop_last() =~= a + b.drop_last());
        assert((a + b).last() == b.last());
        lemma_escape_concat(a, b.drop_last());
        assert(json_escape(a + b) =~= json_escape(a) + json_escape(b));
    }
}

proof fn lemma_escape_front(a: Seq<char>)
    requires
        a.len() > 0,
    ensures
        json_escape(a) == json_escape_char(a[0]) + json_escape(a.skip(1)),
{
    let h = seq![a[0]];
    assert(h + a.skip(1) =~= a);
    assert(h.drop_last() =~= Seq::<char>::empty());
    assert(h.last() == a[0]);
    assert(json_escape(Seq::<char>::empty()) == Seq::<char>::empty());
    assert(json_escape(h) =~= json_escape_char(a[0]));
    lemma_escape_concat(h, a.skip(1));
}

proof fn lemma_hex_injective(i: nat, j: nat)
    requires
        i < 16,
        j < 16,
        hex_char(i) == hex_char(j),
    ensures
        i == j,
{
    let t = seq!['0', '1', '2', '3', '4', '5', '6', '7', '8', '9', 'a', 'b', 'c', 'd', 'e', 'f'];
    assert(t[0] == '0' && t[1] == '1' && t[2] == '2' && t[3] == '3' && t[4] == '4' && t[5] == '5'
        && t[6] == '6' && t[7] == '7' && t[8] == '8' && t[9] == '9' && t[10] == 'a' && t[11] == 'b'
        && t[12] == 'c' && t[13] == 'd' && t[14] == 'e' && t[15] == 'f');
}

proof fn lemma_escape_char_prefix(c: char, d: char, x: Seq<char>, y: Seq<char>)
    requires
        json_escape_char(c) + x == json_escape_char(d) + y,
    ensures
        c == d,
{
    let l = json_escape_char(c) + x;
    let r = json_escape_char(d) + y;
    assert(l[0] == json_escape_char(c)[0]);
    assert(r[0] == json_escape_char(d)[0]);
    if json_escape_char(c).len() >= 2 && json_escape_char(d).len() >= 2 {
        assert(l[1] == json_escape_char(c)[1]);
        assert(r[1] == json_escape_char(d)[1]);
        if json_escape_char(c).len() == 6 && json_escape_char(d).len() == 6 {
            assert(l[4] == json_escape_char(c)[4]);
            assert(r[4] == json_escape_char(d)[4]);
            assert(l[5] == json_escape_char(c)[5]);
            assert(r[5] == json_escape_char(d)[5]);
            lemma_hex_injective((c as nat) / 16, (d as nat) / 16);
            lemma_hex_injective((c as nat) % 16, (d as nat) % 16);
            assert(c as nat == d as nat);
        }
    }
}

proof fn lemma_escape_injective(a: Seq<char>, b: Seq<char>)
    requires
        json_escape(a) == json_escape(b),
    ensures
        a == b,
    decreases a.len(),
{
    if a.len() == 0 && b.len() == 0 {
        assert(a =~= b);
    } else if a.len() == 0 {
        lemma_escape_front(b);
    } else if b.len() == 0 {
        lemma_escape_front(a);
    } else {
        lemma_escape_front(a);
        lemma_escape_front(b);
        lemma_escape_char_prefix(a[0], b[0], json_escape(a.skip(1)), json_escape(b.skip(1)));
        let n = json_escape_char(a[0]).len() as int;
        assert(json_escape(a.skip(1)) =~= json_escape(a).skip(n));
        assert(json_escape(b.skip(1)) =~= json_escape(b).skip(n));
        lemma_escape_injective(a.skip(1), b.skip(1));
        assert(a =~= seq![a[0]] + a.skip(1));
        assert(b =~= seq![b[0]] + b.skip(1));
    }
}

/// The JSON string literal of a text determines the text: two texts with the
/// same literal are the same text, so the literal decodes back to it.
pub proof fn json_string_of_is_injective(a: Seq<char>, b: Seq<char>)
    requires
        json_string_of(a) == json_string_of(b),
    ensures
        a == b,
{
    let la = json_string_of(a);
    let lb = json_string_of(b);
    assert(json_escape(a) =~= la.subrange(1, la.len() - 1));
    assert(json_escape(b) =~= lb.subrange(1, lb.len() - 1));
    lemma_escape_injective(a, b);
}

} // verus!
