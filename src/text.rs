use vstd::prelude::*;

verus! {

/// Relies on `String::push`, which appends one character.
#[verifier::external_body]
fn push_char(s: &mut String, c: char)
    ensures
        final(s)@ == old(s)@.push(c),
{
    s.push(c);
}

/// The character of a decimal digit.
pub open spec fn digit_char(d: nat) -> char {
    if d == 0 {
        '0'
    } else if d == 1 {
        '1'
    } else if d == 2 {
        '2'
    } else if d == 3 {
        '3'
    } else if d == 4 {
        '4'
    } else if d == 5 {
        '5'
    } else if d == 6 {
        '6'
    } else if d == 7 {
        '7'
    } else if d == 8 {
        '8'
    } else {
        '9'
    }
}

/// The decimal rendering of `n`, without leading zeros.
pub open spec fn decimal(n: nat) -> Seq<char>
    decreases n,
{
    if n < 10 {
        seq![digit_char(n)]
    } else {
        decimal(n / 10).push(digit_char(n % 10))
    }
}

/// Digits grouped by three from the right, the groups separated by commas.
pub open spec fn group_thousands(d: Seq<char>) -> Seq<char>
    decreases d.len(),
{
    if d.len() <= 3 {
        d
    } else {
        group_thousands(d.take(d.len() - 3)) + seq![','] + d.skip(d.len() - 3)
    }
}

fn digit_of(d: u64) -> (c: char)
    requires
        d < 10,
    ensures
        c == digit_char(d as nat),
{
    if d == 0 {
        '0'
    } else if d == 1 {
        '1'
    } else if d == 2 {
        '2'
    } else if d == 3 {
        '3'
    } else if d == 4 {
        '4'
    } else if d == 5 {
        '5'
    } else if d == 6 {
        '6'
    } else if d == 7 {
        '7'
    } else if d == 8 {
        '8'
    } else {
        '9'
    }
}

proof fn lemma_decimal_nonempty(n: nat)
    ensures
        decimal(n).len() >= 1,
    decreases n,
{
    if n >= 10 {
        lemma_decimal_nonempty(n / 10);
    }
}

/// The decimal digits of `n`, most significant first.
fn decimal_digits(n: u64) -> (r: Vec<char>)
    ensures
        r@ == decimal(n as nat),
{
    // Digits come out least significant first: collect them, then reverse.
    let mut rev: Vec<char> = Vec::new();
    let mut m: u64 = n;
    let ghost mut done: Seq<char> = Seq::empty();
    while m >= 10
        invariant
            decimal(n as nat) == decimal(m as nat) + done,
            rev@ == done.reverse(),
        decreases m,
    {
        let c = digit_of(m % 10);
        proof {
            assert(decimal(m as nat) == decimal((m / 10) as nat).push(c));
            assert(decimal(m as nat) + done =~= decimal((m / 10) as nat) + (seq![c] + done));
            assert((seq![c] + done).reverse() =~= done.reverse().push(c));
            done = seq![c] + done;
        }
        rev.push(c);
        m = m / 10;
    }
    let c = digit_of(m);
    rev.push(c);
    proof {
        assert(decimal(m as nat) == seq![c]);
        assert((seq![c] + done).reverse() =~= done.reverse().push(c));
        done = seq![c] + done;
    }
    let mut out: Vec<char> = Vec::new();
    let mut i: usize = rev.len();
    while i > 0
        invariant
            i <= rev@.len(),
            rev@ == done.reverse(),
            out@ == done.take(rev@.len() - i),
        decreases i,
    {
        i = i - 1;
        out.push(rev[i]);
        proof {
            assert(done.take(rev@.len() - i) =~= done.take(rev@.len() - i - 1).push(done[rev@.len() - i - 1]));
        }
    }
    assert(done.take(rev@.len() as int) =~= done);
    assert(decimal(n as nat) =~= done);
    out
}

/// Appends the characters `chars[from..to]` to `s`.
fn push_chars(s: &mut String, chars: &Vec<char>, from: usize, to: usize)
    requires
        from <= to <= chars@.len(),
    ensures
        final(s)@ == old(s)@ + chars@.subrange(from as int, to as int),
{
    let mut i: usize = from;
    while i < to
        invariant
            from <= i <= to <= chars@.len(),
            s@ == old(s)@ + chars@.subrange(from as int, i as int),
        decreases to - i,
    {
        push_char(s, chars[i]);
        assert(chars@.subrange(from as int, i + 1) =~= chars@.subrange(from as int, i as int).push(chars@[i as int]));
        i = i + 1;
    }
}

/// The decimal rendering of `n`.
pub fn decimal_string(n: u64) -> (r: String)
    ensures
        r@ == decimal(n as nat),
{
    let digits = decimal_digits(n);
    let mut s = String::new();
    push_chars(&mut s, &digits, 0, digits.len());
    assert(digits@.subrange(0, digits@.len() as int) =~= digits@);
    s
}

/// A row count for display: decimal digits grouped by three with commas,
/// e.g. `1234567` as `1,234,567`.
pub fn format_rows(rows: u64) -> (r: String)
    ensures
        r@ == group_thousands(decimal(rows as nat)),
{
    let digits = decimal_digits(rows);
    let ghost d = digits@;
    proof {
        lemma_decimal_nonempty(rows as nat);
    }
    let len = digits.len();
    let first: usize = if len % 3 == 0 {
        3
    } else {
        len % 3
    };
    let mut s = String::new();
    push_chars(&mut s, &digits, 0, first);
    assert(d.subrange(0, first as int) =~= d.take(first as int));
    let mut i: usize = first;
    while i < len
        invariant
            d == digits@,
            len == d.len(),
            1 <= i <= len,
            (len - i) % 3 == 0,
            s@ == group_thousands(d.take(i as int)),
        decreases len - i,
    {
        push_char(&mut s, ',');
        push_chars(&mut s, &digits, i, i + 3);
        proof {
            let t = d.take(i + 3);
            assert(t.take(t.len() - 3) =~= d.take(i as int));
            assert(t.skip(t.len() - 3) =~= d.subrange(i as int, i + 3));
            assert(s@ =~= group_thousands(d.take(i as int)) + seq![','] + d.subrange(i as int, i + 3));
        }
        i = i + 3;
    }
    assert(d.take(len as int) =~= d);
    s
}

} // verus!
