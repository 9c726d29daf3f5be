use vstd::prelude::*;

verus! {

/// Appends one character to a `String` (`String::push`).
#[verifier::external_body]
pub(crate) fn push_char(s: &mut String, c: char)
    ensures
        final(s)@ == old(s)@.push(c),
{
    s.push(c);
}

/// The characters of `s`, in order.
pub fn chars_of(s: &str) -> (v: Vec<char>)
    ensures
        v@ == s@,
{
    let mut v: Vec<char> = Vec::new();
    for c in it: s.chars()
        invariant
            v@ == it.seq().take(it.index() as int),
            it.seq() == s@,
    {
        v.push(c);
    }
    v
}

} // verus!

verus! {

/// Character of a decimal digit `d < 10`.
pub open spec fn digit_char(d: nat) -> char {
    (48 + d) as char
}

/// Decimal representation of `n`, without leading zeros.
pub open spec fn decimal(n: nat) -> Seq<char>
    decreases n,
{
    if n < 10 {
        seq![digit_char(n)]
    } else {
        decimal(n / 10).push(digit_char(n % 10))
    }
}

fn digit(d: u64) -> (c: char)
    requires
        d < 10,
    ensures
        c == digit_char(d as nat),
{
    if d == 0 {
        '0'
    } else if d == 1 {
        '1'
    } else if d == 2 {
        '2'
    } else if d == 3 {
        '3'
    } else if d == 4 {
        '4'
    } else if d == 5 {
        '5'
    } else if d == 6 {
        '6'
    } else if d == 7 {
        '7'
    } else if d == 8 {
        '8'
    } else {
        '9'
    }
}

/// `decimal(n)` is the usual base-10 numeral of `n`: a nonempty string of
/// ASCII digits whose value is `n`, with no leading zero unless `n` is zero,
/// one digit below ten and at most three below a thousand.
pub proof fn law_decimal_numeral(n: nat)
    ensures
        decimal(n).len() >= 1,
        all_digits(decimal(n)),
        digits_value(decimal(n)) == n,
        n > 0 ==> decimal(n)[0] != '0',
        n < 10 ==> decimal(n).len() == 1,
        n < 100 ==> decimal(n).len() <= 2,
        n < 1000 ==> decimal(n).len() <= 3,
    decreases n,
{
    if n < 10 {
        let c = digit_char(n);
        assert(c as int == 48 + n);
        assert(decimal(n).drop_last() =~= Seq::<char>::empty());
        assert(digits_value(decimal(n)) == digits_value(decimal(n).drop_last()) * 10 + (
        decimal(n).last() as int - 48));
    } else {
        let q = n / 10;
        let r = n % 10;
        law_decimal_numeral(q);
        let c = digit_char(r);
        assert(c as int == 48 + r);
        assert(n == q * 10 + r);
        let d = decimal(n);
        assert(d == decimal(q).push(c));
        assert(d.drop_last() =~= decimal(q));
        assert(d.last() == c);
        assert(digits_value(d) == digits_value(d.drop_last()) * 10 + (d.last() as int - 48));
        assert forall|i: int| 0 <= i < d.len() implies is_ascii_digit(#[trigger] d[i]) by {
            if i < d.len() - 1 {
                assert(d[i] == decimal(q)[i]);
            }
        }
        assert(d[0] == decimal(q)[0]);
        assert(q < 10 ==> n < 100);
        assert(n < 100 ==> q < 10);
        assert(n < 1000 ==> q < 100);
    }
}

proof fn lemma_digits_positive(q: Seq<char>)
    requires
        q.len() >= 1,
        all_digits(q),
        q[0] != '0',
    ensures
        digits_value(q) >= 1,
    decreases q.len(),
{
    let r = q.drop_last();
    assert(is_ascii_digit(q[q.len() - 1]));
    if q.len() > 1 {
        assert(all_digits(r)) by {
            assert forall|i: int| 0 <= i < r.len() implies is_ascii_digit(#[trigger] r[i]) by {
                assert(r[i] == q[i]);
            }
        }
        assert(r[0] == q[0]);
        lemma_digits_positive(r);
    } else {
        assert(r =~= Seq::<char>::empty());
        assert(is_ascii_digit(q[0]));
    }
}

/// A nonempty string of ASCII digits without a leading zero is the decimal
/// numeral of its value: the numeral of a number is the only such string.
pub proof fn law_numeral_of_digits(p: Seq<char>)
    requires
        p.len() >= 1,
        all_digits(p),
        p.len() > 1 ==> p[0] != '0',
    ensures
        decimal(digits_value(p) as nat) == p,
    decreases p.len(),
{
    let q = p.drop_last();
    let c = p.last();
    assert(is_ascii_digit(p[p.len() - 1]));
    let d = c as int - 48;
    assert(0 <= d < 10);
    assert(digit_char(d as nat) == c);
    if p.len() == 1 {
        assert(q =~= Seq::<char>::empty());
        assert(digits_value(q) == 0);
        assert(digits_value(p) == digits_value(q) * 10 + d);
        assert(p =~= seq![c]);
    } else {
        assert(all_digits(q)) by {
            assert forall|i: int| 0 <= i < q.len() implies is_ascii_digit(#[trigger] q[i]) by {
                assert(q[i] == p[i]);
            }
        }
        assert(q[0] == p[0]);
        lemma_digits_positive(q);
        law_numeral_of_digits(q);
        let a = digits_value(q);
        let n = a * 10 + d;
        assert(digits_value(p) == n);
        assert(n / 10 == a && n % 10 == d) by (nonlinear_arith)
            requires
                n == a * 10 + d,
                0 <= d < 10,
                a >= 1,
        ;
        assert(p =~= q.push(c));
    }
}

/// Appends the decimal representation of `n` to `out`.
pub fn push_decimal(out: &mut String, n: u64)
    ensures
        final(out)@ == old(out)@ + decimal(n as nat),
    decreases n,
{
    if n >= 10 {
        push_decimal(out, n / 10);
    }
    push_char(out, digit(n % 10));
    assert(final(out)@ =~= old(out)@ + decimal(n as nat));
}

/// A new `String` holding `s`.
pub fn string_of(s: &str) -> (r: String)
    ensures
        r@ == s@,
{
    String::from_str(s)
}

} // verus!

verus! {

/// Pieces of `s` between the separators that `is_sep` picks, and the piece
/// still open after the last character.
pub open spec fn split_acc(s: Seq<char>, is_sep: spec_fn(char) -> bool) -> (
    Seq<Seq<char>>,
    Seq<char>,
)
    decreases s.len(),
{
    if s.len() == 0 {
        (Seq::empty(), Seq::empty())
    } else {
        let (done, cur) = split_acc(s.drop_last(), is_sep);
        if is_sep(s.last()) {
            (done.push(cur), Seq::empty())
        } else {
            (done, cur.push(s.last()))
        }
    }
}

/// `s` split at every separator; `n` separators give `n + 1` pieces, empty
/// ones included (the pieces of `str::split`).
pub open spec fn split_spec(s: Seq<char>, is_sep: spec_fn(char) -> bool) -> Seq<Seq<char>> {
    let (done, cur) = split_acc(s, is_sep);
    done.push(cur)
}

/// Appending characters that are not separators extends the open piece.
pub proof fn lemma_split_acc_extend(p: Seq<char>, t: Seq<char>, is_sep: spec_fn(char) -> bool)
    requires
        forall|i: int| 0 <= i < t.len() ==> !is_sep(#[trigger] t[i]),
    ensures
        split_acc(p + t, is_sep) == (split_acc(p, is_sep).0, split_acc(p, is_sep).1 + t),
    decreases t.len(),
{
    if t.len() == 0 {
        assert(p + t =~= p);
        assert(split_acc(p, is_sep).1 + t =~= split_acc(p, is_sep).1);
    } else {
        let u = t.drop_last();
        assert forall|i: int| 0 <= i < u.len() implies !is_sep(#[trigger] u[i]) by {
            assert(u[i] == t[i]);
        }
        lemma_split_acc_extend(p, u, is_sep);
        assert((p + t).drop_last() =~= p + u);
        assert((p + t).last() == t[t.len() - 1]);
        assert(split_acc(p, is_sep).1 + u.push(t.last()) =~= split_acc(p, is_sep).1 + t);
        assert(u.push(t.last()) =~= t);
    }
}

/// A separator closes the open piece.
pub proof fn lemma_split_acc_close(p: Seq<char>, c: char, is_sep: spec_fn(char) -> bool)
    requires
        is_sep(c),
    ensures
        split_acc(p.push(c), is_sep) == (
            split_acc(p, is_sep).0.push(split_acc(p, is_sep).1),
            Seq::<char>::empty(),
        ),
{
    assert(p.push(c).drop_last() =~= p);
}

/// `c` is `'.'`.
pub open spec fn is_dot(c: char) -> bool {
    c == '.'
}

/// `c` is `'.'` or `'-'`.
pub open spec fn is_dot_or_dash(c: char) -> bool {
    c == '.' || c == '-'
}

/// The separators of a split: `'.'`, and with `dash` also `'-'`.
pub open spec fn separator(dash: bool) -> spec_fn(char) -> bool {
    if dash {
        |c: char| is_dot_or_dash(c)
    } else {
        |c: char| is_dot(c)
    }
}

/// Splits `s` at every `'.'` (with `dash` also at every `'-'`).
pub fn split_chars(s: &Vec<char>, dash: bool) -> (parts: Vec<Vec<char>>)
    ensures
        parts@.len() == split_spec(s@, separator(dash)).len(),
        forall|i: int|
            0 <= i < parts@.len() ==> #[trigger] parts@[i]@ == split_spec(s@, separator(dash))[i],
{
    let ghost is_sep = separator(dash);
    let mut done: Vec<Vec<char>> = Vec::new();
    let mut cur: Vec<char> = Vec::new();
    let mut i: usize = 0;
    while i < s.len()
        invariant
            i <= s.len(),
            is_sep == separator(dash),
            done@.len() == split_acc(s@.take(i as int), is_sep).0.len(),
            forall|k: int|
                0 <= k < done@.len() ==> #[trigger] done@[k]@ == split_acc(
                    s@.take(i as int),
                    is_sep,
                ).0[k],
            cur@ == split_acc(s@.take(i as int), is_sep).1,
        decreases s.len() - i,
    {
        proof {
            assert(s@.take(i + 1).drop_last() =~= s@.take(i as int));
        }
        let c = s[i];
        let sep = if dash {
            c == '.' || c == '-'
        } else {
            c == '.'
        };
        assert(sep == is_sep(c));
        if sep {
            let piece = cur;
            done.push(piece);
            cur = Vec::new();
        } else {
            cur.push(c);
        }
        i = i + 1;
    }
    proof {
        assert(s@.take(s.len() as int) =~= s@);
    }
    done.push(cur);
    done
}

} // verus!

verus! {

/// `line` without one trailing `'\r'`.
pub open spec fn strip_cr(line: Seq<char>) -> Seq<char> {
    if line.len() > 0 && line.last() == '\r' {
        line.drop_last()
    } else {
        line
    }
}

/// Lines finished by a `'\n'` so far, and the text after the last one.
pub open spec fn lines_acc(s: Seq<char>) -> (Seq<Seq<char>>, Seq<char>)
    decreases s.len(),
{
    if s.len() == 0 {
        (Seq::empty(), Seq::empty())
    } else {
        let (done, cur) = lines_acc(s.drop_last());
        if s.last() == '\n' {
            (done.push(strip_cr(cur)), Seq::empty())
        } else {
            (done, cur.push(s.last()))
        }
    }
}

/// The lines of `s` as `str::lines` gives them: split at `'\n'`, a `'\r'`
/// right before a `'\n'` dropped, and no empty last line after a final `'\n'`.
pub open spec fn lines_spec(s: Seq<char>) -> Seq<Seq<char>> {
    let (done, cur) = lines_acc(s);
    if cur.len() == 0 {
        done
    } else {
        done.push(cur)
    }
}

/// The lines of `s` (`str::lines`).
pub fn lines_of(s: &Vec<char>) -> (lines: Vec<Vec<char>>)
    ensures
        lines@.len() == lines_spec(s@).len(),
        forall|i: int| 0 <= i < lines@.len() ==> #[trigger] lines@[i]@ == lines_spec(s@)[i],
{
    let mut done: Vec<Vec<char>> = Vec::new();
    let mut cur: Vec<char> = Vec::new();
    let mut i: usize = 0;
    while i < s.len()
        invariant
            i <= s.len(),
            done@.len() == lines_acc(s@.take(i as int)).0.len(),
            forall|k: int|
                0 <= k < done@.len() ==> #[trigger] done@[k]@ == lines_acc(s@.take(i as int)).0[k],
            cur@ == lines_acc(s@.take(i as int)).1,
        decreases s.len() - i,
    {
        proof {
            assert(s@.take(i + 1).drop_last() =~= s@.take(i as int));
        }
        let c = s[i];
        if c == '\n' {
            let mut piece = cur;
            if piece.len() > 0 && piece[piece.len() - 1] == '\r' {
                piece.pop();
                assert(piece@ =~= strip_cr(lines_acc(s@.take(i as int)).1));
            }
            done.push(piece);
            cur = Vec::new();
        } else {
            cur.push(c);
        }
        i = i + 1;
    }
    proof {
        assert(s@.take(s.len() as int) =~= s@);
    }
    if cur.len() > 0 {
        done.push(cur);
    }
    done
}

} // verus!

verus! {

/// `c` is one of `'0'..='9'`.
pub open spec fn is_ascii_digit(c: char) -> bool {
    '0' <= c && c <= '9'
}

/// Every character of `s` is an ASCII digit.
pub open spec fn all_digits(s: Seq<char>) -> bool {
    forall|i: int| 0 <= i < s.len() ==> is_ascii_digit(#[trigger] s[i])
}

/// Value of the decimal digits `s`.
pub open spec fn digits_value(s: Seq<char>) -> int
    decreases s.len(),
{
    if s.len() == 0 {
        0
    } else {
        digits_value(s.drop_last()) * 10 + (s.last() as int - 48)
    }
}

/// Digit strings are worth at least zero.
pub proof fn lemma_digits_value_nonneg(s: Seq<char>)
    requires
        all_digits(s),
    ensures
        0 <= digits_value(s),
    decreases s.len(),
{
    if s.len() > 0 {
        assert(all_digits(s.drop_last())) by {
            assert forall|i: int| 0 <= i < s.drop_last().len() implies is_ascii_digit(
                #[trigger] s.drop_last()[i],
            ) by {
                assert(s.drop_last()[i] == s[i]);
            }
        }
        lemma_digits_value_nonneg(s.drop_last());
        assert(is_ascii_digit(s[s.len() - 1]));
    }
}

} // verus!

verus! {

/// Appends the characters `cs` to `out`.
pub fn push_chars(out: &mut String, cs: &Vec<char>)
    ensures
        final(out)@ == old(out)@ + cs@,
{
    let mut i: usize = 0;
    while i < cs.len()
        invariant
            i <= cs.len(),
            out@ == old(out)@ + cs@.take(i as int),
        decreases cs.len() - i,
    {
        push_char(out, cs[i]);
        i = i + 1;
        assert(out@ =~= old(out)@ + cs@.take(i as int));
    }
    assert(cs@.take(cs.len() as int) =~= cs@);
}

} // verus!

verus! {

/// `p` is a prefix of `s`.
pub open spec fn has_prefix(s: Seq<char>, p: Seq<char>) -> bool {
    s.len() >= p.len() && s.subrange(0, p.len() as int) == p
}

/// `p` is a suffix of `s`.
pub open spec fn has_suffix(s: Seq<char>, p: Seq<char>) -> bool {
    s.len() >= p.len() && s.subrange(s.len() - p.len(), s.len() as int) == p
}

/// `s` equals the text `t`.
pub fn chars_equal(s: &Vec<char>, t: &str) -> (b: bool)
    ensures
        b == (s@ == t@),
{
    let tc = chars_of(t);
    if s.len() != tc.len() {
        return false;
    }
    let mut i: usize = 0;
    while i < s.len()
        invariant
            tc@ == t@,
            s.len() == tc.len(),
            i <= s.len(),
            forall|k: int| 0 <= k < i ==> s@[k] == tc@[k],
        decreases s.len() - i,
    {
        if s[i] != tc[i] {
            return false;
        }
        i = i + 1;
    }
    assert(s@ =~= t@);
    true
}

/// `s` starts with the text `p`.
pub fn chars_start_with(s: &Vec<char>, p: &str) -> (b: bool)
    ensures
        b == has_prefix(s@, p@),
{
    let pc = chars_of(p);
    if s.len() < pc.len() {
        return false;
    }
    let mut i: usize = 0;
    while i < pc.len()
        invariant
            pc@ == p@,
            s.len() >= pc.len(),
            i <= pc.len(),
            forall|k: int| 0 <= k < i ==> s@[k] == pc@[k],
        decreases pc.len() - i,
    {
        if s[i] != pc[i] {
            assert(s@.subrange(0, pc.len() as int)[i as int] == s@[i as int]);
            return false;
        }
        i = i + 1;
    }
    assert(s@.subrange(0, pc.len() as int) =~= p@);
    true
}

/// `s` ends with the text `p`.
pub fn chars_end_with(s: &Vec<char>, p: &str) -> (b: bool)
    ensures
        b == has_suffix(s@, p@),
{
    let pc = chars_of(p);
    if s.len() < pc.len() {
        return false;
    }
    let off = s.len() - pc.len();
    let mut i: usize = 0;
    while i < pc.len()
        invariant
            pc@ == p@,
            s.len() >= pc.len(),
            off == s.len() - pc.len(),
            i <= pc.len(),
            forall|k: int| 0 <= k < i ==> s@[off + k] == pc@[k],
        decreases pc.len() - i,
    {
        if s[off + i] != pc[i] {
            assert(s@.subrange(off as int, s.len() as int)[i as int] == s@[off + i]);
            return false;
        }
        i = i + 1;
    }
    assert(s@.subrange(off as int, s.len() as int) =~= p@);
    true
}

/// Path separator normalised to `'/'` and ASCII letters upper-cased.
pub open spec fn upper_slash(c: char) -> char {
    if c == '\\' {
        '/'
    } else if 'a' <= c && c <= 'z' {
        ((c as u32) - 32) as char
    } else {
        c
    }
}

/// `'\\'` replaced by `'/'`.
pub open spec fn forward_slash(c: char) -> char {
    if c == '\\' {
        '/'
    } else {
        c
    }
}

/// `s` with every `'\\'` replaced by `'/'` and, if `upper`, every ASCII
/// letter upper-cased.
pub fn map_chars(s: &Vec<char>, upper: bool) -> (r: Vec<char>)
    ensures
        r@ == s@.map_values(
            |c: char|
                if upper {
                    upper_slash(c)
                } else {
                    forward_slash(c)
                },
        ),
{
    let mut r: Vec<char> = Vec::new();
    let mut i: usize = 0;
    while i < s.len()
        invariant
            i <= s.len(),
            r@.len() == i,
            forall|k: int|
                0 <= k < i ==> r@[k] == (if upper {
                    upper_slash(s@[k])
                } else {
                    forward_slash(s@[k])
                }),
        decreases s.len() - i,
    {
        let c = s[i];
        let d = if c == '\\' {
            '/'
        } else if upper && c >= 'a' && c <= 'z' {
            let v = c as u32;
            let b = (v - 32) as u8;
            b as char
        } else {
            c
        };
        r.push(d);
        i = i + 1;
    }
    assert(r@ =~= s@.map_values(
        |c: char|
            if upper {
                upper_slash(c)
            } else {
                forward_slash(c)
            },
    ));
    r
}

} // verus!
