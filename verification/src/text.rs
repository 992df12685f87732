//! Rendering of numbers as decimal and hexadecimal text.
use vstd::prelude::*;
use vstd::string::*;

verus! {

/// The character of a digit value below 16 (lowercase hexadecimal).
pub open spec fn digit_char(d: nat) -> char {
    if d == 0 { '0' } else if d == 1 { '1' } else if d == 2 { '2' } else if d == 3 { '3' }
    else if d == 4 { '4' } else if d == 5 { '5' } else if d == 6 { '6' } else if d == 7 { '7' }
    else if d == 8 { '8' } else if d == 9 { '9' } else if d == 10 { 'a' } else if d == 11 { 'b' }
    else if d == 12 { 'c' } else if d == 13 { 'd' } else if d == 14 { 'e' } else { 'f' }
}

/// Digits of `n` in base `b`, most significant first, without leading zeros
/// (a single zero for 0).
pub open spec fn digits(n: nat, b: nat) -> Seq<char>
    decreases n,
{
    if b < 2 || n < b {
        seq![digit_char(n)]
    } else {
        proof {
            vstd::arithmetic::div_mod::lemma_div_decreases(n as int, b as int);
        }
        digits(n / b, b) + seq![digit_char(n % b)]
    }
}

/// Decimal text of `n`.
pub open spec fn dec(n: nat) -> Seq<char> {
    digits(n, 10)
}

/// Lowercase hexadecimal text of `n`, left-padded with zeros to `width`.
pub open spec fn hex_padded(n: nat, width: nat) -> Seq<char> {
    let h = digits(n, 16);
    if h.len() >= width {
        h
    } else {
        Seq::new((width - h.len()) as nat, |i: int| '0') + h
    }
}

/// Text of a single digit value below 16.
pub fn digit_str(d: u64) -> (s: &'static str)
    requires
        d < 16,
    ensures
        s@ == seq![digit_char(d as nat)],
{
    proof {
        reveal_strlit("0"); reveal_strlit("1"); reveal_strlit("2"); reveal_strlit("3");
        reveal_strlit("4"); reveal_strlit("5"); reveal_strlit("6"); reveal_strlit("7");
        reveal_strlit("8"); reveal_strlit("9"); reveal_strlit("a"); reveal_strlit("b");
        reveal_strlit("c"); reveal_strlit("d"); reveal_strlit("e"); reveal_strlit("f");
    }
    if d == 0 { "0" } else if d == 1 { "1" } else if d == 2 { "2" } else if d == 3 { "3" }
    else if d == 4 { "4" } else if d == 5 { "5" } else if d == 6 { "6" } else if d == 7 { "7" }
    else if d == 8 { "8" } else if d == 9 { "9" } else if d == 10 { "a" } else if d == 11 { "b" }
    else if d == 12 { "c" } else if d == 13 { "d" } else if d == 14 { "e" } else { "f" }
}

/// Appends the digits of `n` in base `b` to `out`.
pub fn push_digits(out: &mut String, n: u64, b: u64)
    requires
        2 <= b <= 16,
    ensures
        final(out)@ == old(out)@ + digits(n as nat, b as nat),
    decreases n,
{
    if n < b {
        out.append(digit_str(n));
    } else {
        proof { vstd::arithmetic::div_mod::lemma_div_decreases(n as int, b as int); }
        push_digits(out, n / b, b);
        out.append(digit_str(n % b));
        proof {
            assert(old(out)@ + digits((n / b) as nat, b as nat) + seq![digit_char((n % b) as nat)]
                =~= old(out)@ + digits(n as nat, b as nat));
        }
    }
}

/// Appends the decimal text of `n` to `out`.
pub fn push_dec(out: &mut String, n: u64)
    ensures
        final(out)@ == old(out)@ + dec(n as nat),
{
    push_digits(out, n, 10);
}

/// Decimal text of `n`.
pub fn render_dec(n: u64) -> (s: String)
    ensures
        s@ == dec(n as nat),
{
    let mut s = String::new();
    push_dec(&mut s, n);
    assert(s@ =~= dec(n as nat));
    s
}

/// Number of digits of `n` in base `b`.
pub fn count_digits(n: u64, b: u64) -> (c: u64)
    requires
        2 <= b <= 16,
    ensures
        c == digits(n as nat, b as nat).len(),
        c <= 64,
    decreases n,
{
    if n < b {
        1
    } else {
        proof { vstd::arithmetic::div_mod::lemma_div_decreases(n as int, b as int); }
        let c = count_digits(n / b, b);
        proof { lemma_digits_len_bound(n as nat, b as nat); }
        c + 1
    }
}

proof fn lemma_digits_len_bound(n: nat, b: nat)
    requires
        2 <= b,
        n < 0x1_0000_0000_0000_0000,
    ensures
        digits(n, b).len() <= 64,
{
    vstd::arithmetic::power2::lemma2_to64();
    lemma_digits_len_log(n, b, 64);
}

proof fn lemma_digits_len_log(n: nat, b: nat, k: nat)
    requires
        2 <= b,
        n < vstd::arithmetic::power2::pow2(k),
    ensures
        digits(n, b).len() <= k || (k == 0 && digits(n, b).len() == 1),
    decreases n,
{
    vstd::arithmetic::power2::lemma_pow2_pos(k);
    if n < b {
    } else {
        vstd::arithmetic::div_mod::lemma_div_decreases(n as int, b as int);
        if k == 0 {
            vstd::arithmetic::power2::lemma2_to64();
            assert(false);
        }
        let k1 = (k - 1) as nat;
        vstd::arithmetic::power2::lemma_pow2_unfold(k);
        assert(n / b < vstd::arithmetic::power2::pow2(k1)) by (nonlinear_arith)
            requires
                n < vstd::arithmetic::power2::pow2(k1) * 2,
                b >= 2,
        ;
        lemma_digits_len_log(n / b, b, k1);
        if k1 == 0 {
            vstd::arithmetic::power2::lemma2_to64();
            assert(n / b < 1);
            assert(n < b) by (nonlinear_arith)
                requires n / b < 1, b >= 2;
        }
    }
}

/// Appends the hexadecimal text of `n`, zero-padded to `width`, to `out`.
pub fn push_hex_padded(out: &mut String, n: u64, width: u64)
    ensures
        final(out)@ == old(out)@ + hex_padded(n as nat, width as nat),
{
    let len = count_digits(n, 16);
    let ghost start = out@;
    if len < width {
        let pad = width - len;
        let mut i: u64 = 0;
        while i < pad
            invariant
                i <= pad,
                out@ == start + Seq::new(i as nat, |k: int| '0'),
            decreases pad - i,
        {
            proof { reveal_strlit("0"); }
            out.append("0");
            i += 1;
            assert(out@ =~= start + Seq::new(i as nat, |k: int| '0'));
        }
    }
    let ghost mid = out@;
    push_digits(out, n, 16);
    proof {
        assert(out@ =~= start + hex_padded(n as nat, width as nat));
    }
}


/// Text of an optional number: its decimal digits, or `-` when absent.
pub open spec fn opt_text(v: Option<u32>) -> Seq<char> {
    match v {
        Some(x) => dec(x as nat),
        None => seq!['-'],
    }
}

/// `true` or `false`.
pub open spec fn bool_text(b: bool) -> Seq<char> {
    if b { "true"@ } else { "false"@ }
}

/// Debug text of an optional number: `Some(n)` or `None`.
pub open spec fn debug_opt(v: Option<u32>) -> Seq<char> {
    match v {
        Some(x) => "Some("@ + dec(x as nat) + ")"@,
        None => "None"@,
    }
}

/// `parts` joined with `sep` between neighbours.
pub open spec fn join(parts: Seq<Seq<char>>, sep: Seq<char>) -> Seq<char>
    decreases parts.len(),
{
    if parts.len() == 0 {
        Seq::empty()
    } else if parts.len() == 1 {
        parts[0]
    } else {
        join(parts.drop_last(), sep) + sep + parts.last()
    }
}

/// Decimal text of each number.
pub open spec fn dec_parts(s: Seq<u32>) -> Seq<Seq<char>> {
    Seq::new(s.len(), |i: int| dec(s[i] as nat))
}

/// Text of each optional number.
pub open spec fn opt_parts(s: Seq<Option<u32>>) -> Seq<Seq<char>> {
    Seq::new(s.len(), |i: int| opt_text(s[i]))
}

/// Text of each flag.
pub open spec fn bool_parts(s: Seq<bool>) -> Seq<Seq<char>> {
    Seq::new(s.len(), |i: int| bool_text(s[i]))
}

/// Debug text of a list of numbers: `[a, b, c]`.
pub open spec fn debug_list(s: Seq<u32>) -> Seq<char> {
    "["@ + join(dec_parts(s), ", "@) + "]"@
}

/// Joining one more part adds the separator and the part.
pub proof fn lemma_join_push(parts: Seq<Seq<char>>, p: Seq<char>, sep: Seq<char>)
    ensures
        join(parts.push(p), sep) == (if parts.len() == 0 { p } else { join(parts, sep) + sep + p }),
{
    assert(parts.push(p).drop_last() =~= parts);
}

/// Appends the text of an optional number.
pub fn push_opt(out: &mut String, v: Option<u32>)
    ensures
        final(out)@ == old(out)@ + opt_text(v),
{
    match v {
        Some(x) => push_dec(out, x as u64),
        None => {
            proof { reveal_strlit("-"); }
            out.append("-");
        },
    }
}

/// Text of an optional number: its decimal digits, or `-`.
pub fn render_trace_rows_option(v: Option<u32>) -> (s: String)
    ensures
        s@ == opt_text(v),
{
    let mut s = String::new();
    push_opt(&mut s, v);
    assert(s@ =~= opt_text(v));
    s
}

/// Appends `true` or `false`.
pub fn push_bool(out: &mut String, b: bool)
    ensures
        final(out)@ == old(out)@ + bool_text(b),
{
    if b {
        out.append("true");
    } else {
        out.append("false");
    }
}

/// Appends the debug text of an optional number.
pub fn push_debug_opt(out: &mut String, v: Option<u32>)
    ensures
        final(out)@ == old(out)@ + debug_opt(v),
{
    match v {
        Some(x) => {
            out.append("Some(");
            push_dec(out, x as u64);
            out.append(")");
            assert(out@ =~= old(out)@ + debug_opt(v));
        },
        None => {
            out.append("None");
        },
    }
}

/// Appends the numbers of `v` in decimal, joined with `sep`.
pub fn push_dec_list(out: &mut String, v: &Vec<u32>, sep: &str)
    ensures
        final(out)@ == old(out)@ + join(dec_parts(v@), sep@),
{
    let ghost start = out@;
    let mut i: usize = 0;
    assert(dec_parts(v@.take(0)) =~= Seq::<Seq<char>>::empty());
    assert(out@ =~= start + join(dec_parts(v@.take(0)), sep@));
    while i < v.len()
        invariant
            i <= v@.len(),
            out@ == start + join(dec_parts(v@.take(i as int)), sep@),
        decreases v@.len() - i,
    {
        if i > 0 {
            out.append(sep);
        }
        push_dec(out, v[i] as u64);
        proof {
            let prev = dec_parts(v@.take(i as int));
            lemma_join_push(prev, dec(v@[i as int] as nat), sep@);
            assert(dec_parts(v@.take(i + 1)) =~= prev.push(dec(v@[i as int] as nat)));
            assert(out@ =~= start + join(dec_parts(v@.take(i + 1)), sep@));
        }
        i += 1;
    }
    assert(v@.take(v@.len() as int) =~= v@);
}

/// Appends the optional numbers of `v`, joined with commas.
pub fn push_opt_list(out: &mut String, v: &Vec<Option<u32>>)
    ensures
        final(out)@ == old(out)@ + join(opt_parts(v@), ","@),
{
    let ghost start = out@;
    let mut i: usize = 0;
    assert(opt_parts(v@.take(0)) =~= Seq::<Seq<char>>::empty());
    assert(out@ =~= start + join(opt_parts(v@.take(0)), ","@));
    while i < v.len()
        invariant
            i <= v@.len(),
            out@ == start + join(opt_parts(v@.take(i as int)), ","@),
        decreases v@.len() - i,
    {
        if i > 0 {
            out.append(",");
        }
        push_opt(out, v[i]);
        proof {
            let prev = opt_parts(v@.take(i as int));
            lemma_join_push(prev, opt_text(v@[i as int]), ","@);
            assert(opt_parts(v@.take(i + 1)) =~= prev.push(opt_text(v@[i as int])));
            assert(out@ =~= start + join(opt_parts(v@.take(i + 1)), ","@));
        }
        i += 1;
    }
    assert(v@.take(v@.len() as int) =~= v@);
}

/// Appends the flags of `v`, joined with commas.
pub fn push_bool_list(out: &mut String, v: &Vec<bool>)
    ensures
        final(out)@ == old(out)@ + join(bool_parts(v@), ","@),
{
    let ghost start = out@;
    let mut i: usize = 0;
    assert(bool_parts(v@.take(0)) =~= Seq::<Seq<char>>::empty());
    assert(out@ =~= start + join(bool_parts(v@.take(0)), ","@));
    while i < v.len()
        invariant
            i <= v@.len(),
            out@ == start + join(bool_parts(v@.take(i as int)), ","@),
        decreases v@.len() - i,
    {
        if i > 0 {
            out.append(",");
        }
        push_bool(out, v[i]);
        proof {
            let prev = bool_parts(v@.take(i as int));
            lemma_join_push(prev, bool_text(v@[i as int]), ","@);
            assert(bool_parts(v@.take(i + 1)) =~= prev.push(bool_text(v@[i as int])));
            assert(out@ =~= start + join(bool_parts(v@.take(i + 1)), ","@));
        }
        i += 1;
    }
    assert(v@.take(v@.len() as int) =~= v@);
}

/// The optional numbers of `v`, joined with commas.
pub fn render_trace_rows_option_list(v: &Vec<Option<u32>>) -> (s: String)
    ensures
        s@ == join(opt_parts(v@), ","@),
{
    let mut s = String::new();
    push_opt_list(&mut s, v);
    assert(s@ =~= join(opt_parts(v@), ","@));
    s
}

/// The flags of `v` as `true`/`false`, joined with commas.
pub fn render_trace_rows_bool_list(v: &Vec<bool>) -> (s: String)
    ensures
        s@ == join(bool_parts(v@), ","@),
{
    let mut s = String::new();
    push_bool_list(&mut s, v);
    assert(s@ =~= join(bool_parts(v@), ","@));
    s
}

/// The numbers of `v` in decimal, joined with commas.
pub fn render_trace_rows_runnable(v: &Vec<u32>) -> (s: String)
    ensures
        s@ == join(dec_parts(v@), ","@),
{
    let mut s = String::new();
    push_dec_list(&mut s, v, ",");
    assert(s@ =~= join(dec_parts(v@), ","@));
    s
}

/// Appends the debug text of a list of numbers.
pub fn push_debug_list(out: &mut String, v: &Vec<u32>)
    ensures
        final(out)@ == old(out)@ + debug_list(v@),
{
    out.append("[");
    push_dec_list(out, v, ", ");
    out.append("]");
    assert(out@ =~= old(out)@ + debug_list(v@));
}


/// `s` right-aligned in a field of `width` characters (spaces in front).
pub open spec fn pad_left(s: Seq<char>, width: nat) -> Seq<char> {
    if s.len() >= width { s } else { Seq::new((width - s.len()) as nat, |i: int| ' ') + s }
}

/// `s` left-aligned in a field of `width` characters (spaces behind).
pub open spec fn pad_right(s: Seq<char>, width: nat) -> Seq<char> {
    if s.len() >= width { s } else { s + Seq::new((width - s.len()) as nat, |i: int| ' ') }
}

/// Appends `n` spaces.
pub fn push_spaces(out: &mut String, n: usize)
    ensures
        final(out)@ == old(out)@ + Seq::new(n as nat, |i: int| ' '),
{
    let ghost start = out@;
    let mut i: usize = 0;
    while i < n
        invariant
            i <= n,
            out@ == start + Seq::new(i as nat, |k: int| ' '),
        decreases n - i,
    {
        proof { reveal_strlit(" "); }
        out.append(" ");
        i += 1;
        assert(out@ =~= start + Seq::new(i as nat, |k: int| ' '));
    }
}

/// Appends the decimal text of `n` right-aligned in `width` characters.
pub fn push_dec_padded(out: &mut String, n: u64, width: usize)
    ensures
        final(out)@ == old(out)@ + pad_left(dec(n as nat), width as nat),
{
    let len = count_digits(n, 10);
    let ghost start = out@;
    if (len as usize) < width {
        push_spaces(out, width - len as usize);
    }
    push_dec(out, n);
    assert(out@ =~= start + pad_left(dec(n as nat), width as nat));
}

/// Appends `s` right-aligned in `width` characters.
pub fn push_str_padded_left(out: &mut String, s: &str, width: usize)
    ensures
        final(out)@ == old(out)@ + pad_left(s@, width as nat),
{
    let ghost start = out@;
    let len = s.unicode_len();
    if len < width {
        push_spaces(out, width - len);
    }
    out.append(s);
    assert(out@ =~= start + pad_left(s@, width as nat));
}

/// Appends `s` left-aligned in `width` characters.
pub fn push_str_padded_right(out: &mut String, s: &str, width: usize)
    ensures
        final(out)@ == old(out)@ + pad_right(s@, width as nat),
{
    let ghost start = out@;
    let len = s.unicode_len();
    out.append(s);
    if len < width {
        push_spaces(out, width - len);
    }
    assert(out@ =~= start + pad_right(s@, width as nat));
}

} // verus!
