//! The favorites store's record format: a UTF-8 JSON array of item ids,
//! e.g. `[7,3,12]`. `encode_favorites` emits the canonical form (no spaces,
//! no leading zeros) and `parse_favorites` accepts exactly that form;
//! `lemma_parse_round_trip` proves that parsing an encoded list gives the
//! list back.

use vstd::prelude::*;
use crate::models::GoatId;
use vstd::string::StrSliceExecFns;
use vstd::string::StringExecFns;

verus! {

pub open spec fn is_digit_char(c: char) -> bool {
    48 <= (c as u32) && (c as u32) <= 57
}

pub open spec fn digit_val(c: char) -> int {
    (c as u32) - 48
}

pub open spec fn digit_char(d: int) -> char {
    if d == 0 { '0' }
    else if d == 1 { '1' }
    else if d == 2 { '2' }
    else if d == 3 { '3' }
    else if d == 4 { '4' }
    else if d == 5 { '5' }
    else if d == 6 { '6' }
    else if d == 7 { '7' }
    else if d == 8 { '8' }
    else { '9' }
}

/// Decimal representation of `n`, most significant digit first.
pub open spec fn dec_rep(n: u32) -> Seq<char>
    decreases n,
{
    if n < 10 {
        seq![digit_char(n as int)]
    } else {
        dec_rep(n / 10).push(digit_char((n % 10) as int))
    }
}

/// The comma-separated item list between the brackets.
pub open spec fn items_of(l: Seq<u32>) -> Seq<char>
    decreases l.len(),
{
    if l.len() == 0 {
        Seq::<char>::empty()
    } else if l.len() == 1 {
        dec_rep(l[0])
    } else {
        dec_rep(l[0]) + seq![','] + items_of(l.drop_first())
    }
}

/// The canonical JSON encoding of a favorites list.
pub open spec fn json_of(l: Seq<u32>) -> Seq<char> {
    seq!['['] + items_of(l) + seq![']']
}

/// Value of a digit string, most significant digit first.
pub open spec fn digits_val(s: Seq<char>) -> int
    decreases s.len(),
{
    if s.len() == 0 {
        0
    } else {
        digits_val(s.drop_last()) * 10 + digit_val(s.last())
    }
}

pub open spec fn pow10(k: nat) -> int
    decreases k,
{
    if k == 0 { 1 } else { 10 * pow10((k - 1) as nat) }
}

/// Reads digits from position `i` on, accumulating onto `acc`; stops at the
/// first non-digit, and fails only when the value no longer fits in a `u32`.
pub open spec fn sp_digits(s: Seq<char>, i: nat, acc: u32) -> Option<(u32, nat)>
    decreases s.len() - i,
{
    if i >= s.len() || !is_digit_char(s[i as int]) {
        Some((acc, i))
    } else {
        let d: int = digit_val(s[i as int]);
        if (acc as int) * 10 + d > u32::MAX as int {
            None
        } else {
            sp_digits(s, i + 1, ((acc as int) * 10 + d) as u32)
        }
    }
}

/// Reads one canonical JSON integer at position `i`: digits only, and no
/// leading zero unless the number is exactly `0`.
pub open spec fn sp_num(s: Seq<char>, i: nat) -> Option<(u32, nat)> {
    if i >= s.len() || !is_digit_char(s[i as int]) {
        None
    } else if s[i as int] == '0' {
        if i + 1 < s.len() && is_digit_char(s[i as int + 1]) {
            None
        } else {
            Some((0, i + 1))
        }
    } else {
        sp_digits(s, i, 0)
    }
}

/// Reads a non-empty comma-separated list of canonical integers.
pub open spec fn sp_items(s: Seq<char>, i: nat) -> Option<(Seq<u32>, nat)>
    decreases s.len() - i,
{
    match sp_num(s, i) {
        None => None,
        Some(vj) => {
            let j: nat = vj.1;
            if i < j && j < s.len() && s[j as int] == ',' {
                match sp_items(s, j + 1) {
                    None => None,
                    Some(lk) => Some((seq![vj.0] + lk.0, lk.1)),
                }
            } else {
                Some((seq![vj.0], j))
            }
        },
    }
}

/// The canonical JSON-array parser: `[]`, or `[` items `]`, nothing else.
pub open spec fn spec_parse(s: Seq<char>) -> Option<Seq<u32>> {
    if s.len() < 2 || s[0] != '[' {
        None
    } else if s.len() == 2 && s[1] == ']' {
        Some(Seq::<u32>::empty())
    } else {
        match sp_items(s, 1) {
            None => None,
            Some(lj) => {
                if lj.1 + 1 == s.len() && s[lj.1 as int] == ']' {
                    Some(lj.0)
                } else {
                    None
                }
            },
        }
    }
}

/// How `str::parse::<u32>` reads a string: an optional `+`, then at least
/// one digit, with overflow rejected; leading zeros are accepted.
pub open spec fn spec_parse_u32(s: Seq<char>) -> Option<u32> {
    let st: nat = if s.len() >= 1 && s[0] == '+' { 1nat } else { 0nat };
    if s.len() == st {
        None
    } else {
        match sp_digits(s, st, 0) {
            None => None,
            Some(vj) => if vj.1 == s.len() { Some(vj.0) } else { None },
        }
    }
}

fn digit_str(d: u32) -> (r: &'static str)
    requires
        d < 10,
    ensures
        r@ == seq![digit_char(d as int)],
{
    proof {
        reveal_strlit("0"); reveal_strlit("1"); reveal_strlit("2");
        reveal_strlit("3"); reveal_strlit("4"); reveal_strlit("5");
        reveal_strlit("6"); reveal_strlit("7"); reveal_strlit("8");
        reveal_strlit("9");
        assert("0"@ =~= seq!['0']);
        assert("1"@ =~= seq!['1']);
        assert("2"@ =~= seq!['2']);
        assert("3"@ =~= seq!['3']);
        assert("4"@ =~= seq!['4']);
        assert("5"@ =~= seq!['5']);
        assert("6"@ =~= seq!['6']);
        assert("7"@ =~= seq!['7']);
        assert("8"@ =~= seq!['8']);
        assert("9"@ =~= seq!['9']);
    }
    match d {
        0 => "0",
        1 => "1",
        2 => "2",
        3 => "3",
        4 => "4",
        5 => "5",
        6 => "6",
        7 => "7",
        8 => "8",
        _ => "9",
    }
}

pub(crate) fn push_u32_dec(out: &mut String, n: u32)
    ensures
        final(out)@ == old(out)@ + dec_rep(n),
    decreases n,
{
    if n >= 10 {
        push_u32_dec(out, n / 10);
    }
    out.append(digit_str(n % 10));
    proof {
        if n < 10 {
            assert(old(out)@ + dec_rep(n) =~= final(out)@);
        } else {
            assert(old(out)@ + dec_rep(n) =~= (old(out)@ + dec_rep(n / 10)) + seq![
                digit_char((n % 10) as int),
            ]);
        }
    }
}

proof fn lemma_items_snoc(l: Seq<u32>, x: u32)
    ensures
        l.len() == 0 ==> items_of(l.push(x)) == dec_rep(x),
        l.len() >= 1 ==> items_of(l.push(x)) == items_of(l) + seq![','] + dec_rep(x),
    decreases l.len(),
{
    if l.len() == 0 {
        assert(l.push(x).len() == 1);
        assert(l.push(x)[0] == x);
    } else if l.len() == 1 {
        assert(l.push(x).drop_first() =~= l.drop_first().push(x));
        assert(items_of(l.push(x)) == dec_rep(l[0]) + seq![','] + items_of(l.drop_first().push(x)));
        lemma_items_snoc(l.drop_first(), x);
        assert(items_of(l) + seq![','] + dec_rep(x) =~= dec_rep(l[0]) + seq![','] + dec_rep(x));
    } else {
        assert(l.push(x).drop_first() =~= l.drop_first().push(x));
        lemma_items_snoc(l.drop_first(), x);
        assert(items_of(l) + seq![','] + dec_rep(x) =~= dec_rep(l[0]) + seq![','] + (items_of(
            l.drop_first(),
        ) + seq![','] + dec_rep(x)));
    }
}

/// Serialize a favorites list as the store's record format.
pub fn encode_favorites(l: &Vec<GoatId>) -> (r: String)
    ensures
        r@ == json_of(l@),
{
    proof {
        reveal_strlit("[");
        reveal_strlit("]");
        reveal_strlit(",");
        assert("["@ =~= seq!['[']);
        assert("]"@ =~= seq![']']);
        assert(","@ =~= seq![',']);
    }
    let mut out = String::from_str("[");
    let mut i: usize = 0;
    while i < l.len()
        invariant
            0 <= i <= l@.len(),
            out@ == seq!['['] + items_of(l@.take(i as int)),
            ","@ == seq![','],
        decreases l@.len() - i,
    {
        if i > 0 {
            out.append(",");
        }
        push_u32_dec(&mut out, l[i]);
        proof {
            assert(l@.take(i + 1 as int) =~= l@.take(i as int).push(l@[i as int]));
            lemma_items_snoc(l@.take(i as int), l@[i as int]);
        }
        i = i + 1;
    }
    out.append("]");
    proof {
        assert(l@.take(l@.len() as int) =~= l@);
        assert(out@ =~= json_of(l@));
    }
    out
}

proof fn lemma_dec_rep_shape(n: u32)
    ensures
        dec_rep(n).len() >= 1,
        forall|i: int| 0 <= i < dec_rep(n).len() ==> is_digit_char(#[trigger] dec_rep(n)[i]),
        n >= 1 ==> dec_rep(n)[0] != '0',
    decreases n,
{
    if n >= 10 {
        lemma_dec_rep_shape(n / 10);
    }
}

proof fn lemma_digit_char_val(d: int)
    requires
        0 <= d <= 9,
    ensures
        digit_val(digit_char(d)) == d,
        is_digit_char(digit_char(d)),
{
    assert('0' as u32 == 48);
    assert('1' as u32 == 49);
    assert('2' as u32 == 50);
    assert('3' as u32 == 51);
    assert('4' as u32 == 52);
    assert('5' as u32 == 53);
    assert('6' as u32 == 54);
    assert('7' as u32 == 55);
    assert('8' as u32 == 56);
    assert('9' as u32 == 57);
}

proof fn lemma_dec_rep_val(n: u32)
    ensures
        digits_val(dec_rep(n)) == n,
    decreases n,
{
    if n < 10 {
        lemma_digit_char_val(n as int);
        assert(dec_rep(n) == seq![digit_char(n as int)]);
        assert(dec_rep(n).last() == digit_char(n as int));
        assert(dec_rep(n).drop_last() =~= Seq::<char>::empty());
        assert(digits_val(Seq::<char>::empty()) == 0);
        assert(digits_val(dec_rep(n)) == digits_val(dec_rep(n).drop_last()) * 10 + digit_val(
            dec_rep(n).last(),
        ));
    } else {
        lemma_dec_rep_val(n / 10);
        lemma_digit_char_val((n % 10) as int);
        assert(dec_rep(n) == dec_rep(n / 10).push(digit_char((n % 10) as int)));
        assert(dec_rep(n).len() == dec_rep(n / 10).len() + 1);
        assert(dec_rep(n).last() == digit_char((n % 10) as int));
        assert(dec_rep(n).drop_last() =~= dec_rep(n / 10));
        assert(digits_val(dec_rep(n)) == digits_val(dec_rep(n).drop_last()) * 10 + digit_val(
            dec_rep(n).last(),
        ));
        assert((n / 10) * 10 + n % 10 == n);
    }
}

proof fn lemma_pow10_pos(k: nat)
    ensures
        pow10(k) >= 1,
    decreases k,
{
    if k > 0 {
        lemma_pow10_pos((k - 1) as nat);
    }
}

proof fn lemma_digits_val_nonneg(s: Seq<char>)
    requires
        forall|i: int| 0 <= i < s.len() ==> is_digit_char(#[trigger] s[i]),
    ensures
        digits_val(s) >= 0,
    decreases s.len(),
{
    if s.len() > 0 {
        lemma_digits_val_nonneg(s.drop_last());
    }
}

proof fn lemma_digits_val_cons(s: Seq<char>)
    requires
        s.len() >= 1,
    ensures
        digits_val(s) == digit_val(s[0]) * pow10((s.len() - 1) as nat) + digits_val(
            s.drop_first(),
        ),
    decreases s.len(),
{
    if s.len() == 1 {
        assert(s.drop_last() =~= Seq::<char>::empty());
        assert(s.drop_first() =~= Seq::<char>::empty());
    } else {
        lemma_digits_val_cons(s.drop_last());
        assert(s.drop_last()[0] == s[0]);
        assert(s.drop_last().drop_first() =~= s.drop_first().drop_last());
        assert(s.drop_first().last() == s.last());
        let k: nat = (s.len() - 2) as nat;
        assert(digits_val(s) == (digit_val(s[0]) * pow10(k) + digits_val(s.drop_first().drop_last()))
            * 10 + digit_val(s.last()));
        assert((digit_val(s[0]) * pow10(k)) * 10 == digit_val(s[0]) * (pow10(k) * 10))
            by (nonlinear_arith);
        assert(pow10(k) * 10 == pow10((k + 1) as nat));
        assert(digits_val(s.drop_first()) == digits_val(s.drop_first().drop_last()) * 10
            + digit_val(s.drop_first().last()));
    }
}

proof fn lemma_sp_digits_span(s: Seq<char>, i: nat, j: nat, acc: u32)
    requires
        i <= j <= s.len(),
        forall|k: int| i <= k < j ==> is_digit_char(#[trigger] s[k]),
        j == s.len() || !is_digit_char(s[j as int]),
        (acc as int) * pow10((j - i) as nat) + digits_val(s.subrange(i as int, j as int))
            <= u32::MAX as int,
    ensures
        sp_digits(s, i, acc) == Some(
            (
                ((acc as int) * pow10((j - i) as nat) + digits_val(
                    s.subrange(i as int, j as int),
                )) as u32,
                j,
            ),
        ),
    decreases j - i,
{
    lemma_pow10_pos(((j - i)) as nat);
    if i == j {
        assert(s.subrange(i as int, j as int) =~= Seq::<char>::empty());
    } else {
        let sub = s.subrange(i as int, j as int);
        let d: int = digit_val(s[i as int]);
        lemma_digits_val_cons(sub);
        assert(sub.drop_first() =~= s.subrange(i as int + 1, j as int));
        lemma_digits_val_nonneg(sub.drop_first());
        let k: nat = (j - i - 1) as nat;
        lemma_pow10_pos(k);
        let rest: int = digits_val(sub.drop_first());
        // total re-associates onto the next accumulator
        assert((acc as int) * pow10((j - i) as nat) == ((acc as int) * 10) * pow10(k))
            by (nonlinear_arith)
            requires pow10((j - i) as nat) == 10 * pow10(k),
        ;
        let acc2: int = (acc as int) * 10 + d;
        assert(((acc as int) * 10) * pow10(k) + d * pow10(k) == acc2 * pow10(k))
            by (nonlinear_arith)
            requires acc2 == (acc as int) * 10 + d,
        ;
        assert(acc2 <= acc2 * pow10(k)) by (nonlinear_arith)
            requires acc2 >= 0, pow10(k) >= 1,
        ;
        assert(acc2 * pow10(k) + rest <= u32::MAX as int);
        lemma_sp_digits_span(s, i + 1, j, acc2 as u32);
    }
}

proof fn lemma_sp_num_dec(s: Seq<char>, i: nat, n: u32)
    requires
        i + dec_rep(n).len() <= s.len(),
        s.subrange(i as int, (i + dec_rep(n).len()) as int) == dec_rep(n),
        i + dec_rep(n).len() == s.len() || !is_digit_char(s[(i + dec_rep(n).len()) as int]),
    ensures
        sp_num(s, i) == Some((n, (i + dec_rep(n).len()) as nat)),
{
    lemma_dec_rep_shape(n);
    lemma_dec_rep_val(n);
    let end: nat = (i + dec_rep(n).len()) as nat;
    assert(s[i as int] == dec_rep(n)[0]);
    if n == 0 {
        assert(s[i as int] == '0');
    } else {
        assert(s[i as int] != '0');
        assert(forall|k: int| i <= k < end ==> is_digit_char(#[trigger] s[k])) by {
            assert(forall|k: int|
                i <= k < end ==> #[trigger] s[k] == dec_rep(n)[k - i]
                    && is_digit_char(dec_rep(n)[k - i]));
        }
        lemma_pow10_pos(((end - i)) as nat);
        assert(s.subrange(i as int, end as int) == dec_rep(n));
        lemma_sp_digits_span(s, i, end, 0);
    }
}

proof fn lemma_sp_items_items(s: Seq<char>, i: nat, l: Seq<u32>)
    requires
        l.len() >= 1,
        i + items_of(l).len() <= s.len(),
        s.subrange(i as int, (i + items_of(l).len()) as int) == items_of(l),
        i + items_of(l).len() == s.len() || (!is_digit_char(s[(i + items_of(l).len()) as int])
            && s[(i + items_of(l).len()) as int] != ','),
    ensures
        sp_items(s, i) == Some((l, (i + items_of(l).len()) as nat)),
    decreases l.len(),
{
    let end: nat = (i + items_of(l).len()) as nat;
    lemma_dec_rep_shape(l[0]);
    if l.len() == 1 {
        lemma_sp_num_dec(s, i, l[0]);
        assert(seq![l[0]] =~= l);
    } else {
        let rep = dec_rep(l[0]);
        let j1: nat = (i + rep.len()) as nat;
        assert(items_of(l) == rep + seq![','] + items_of(l.drop_first()));
        assert(s.subrange(i as int, j1 as int) =~= rep) by {
            assert(forall|k: int|
                0 <= k < rep.len() ==> s.subrange(i as int, end as int)[k] == #[trigger] rep[k]);
        }
        assert(s[j1 as int] == items_of(l)[rep.len() as int]);
        assert(items_of(l)[rep.len() as int] == ',');
        assert(!is_digit_char(','));
        lemma_sp_num_dec(s, i, l[0]);
        let rest = l.drop_first();
        assert(items_of(rest).len() == items_of(l).len() - rep.len() - 1);
        assert(s.subrange(j1 as int + 1, end as int) =~= items_of(rest)) by {
            assert(forall|k: int|
                0 <= k < items_of(rest).len() ==> s.subrange(i as int, end as int)[rep.len() + 1
                    + k] == #[trigger] items_of(rest)[k]);
        }
        lemma_sp_items_items(s, j1 + 1, rest);
        assert(seq![l[0]] + rest =~= l);
    }
}

/// Parsing the canonical encoding of a list gives the list back.
pub proof fn lemma_parse_round_trip(l: Seq<u32>)
    ensures
        spec_parse(json_of(l)) == Some(l),
{
    let s = json_of(l);
    assert(s[0] == '[');
    assert(s[s.len() - 1] == ']');
    if l.len() == 0 {
        assert(s.len() == 2);
    } else {
        assert(s.len() >= 3) by {
            lemma_dec_rep_shape(l[0]);
            if l.len() >= 2 {
                assert(items_of(l).len() >= dec_rep(l[0]).len());
            }
        }
        let end: nat = (1 + items_of(l).len()) as nat;
        assert(s.subrange(1, end as int) =~= items_of(l));
        assert(s[end as int] == ']');
        assert(!is_digit_char(']') && ']' != ',');
        lemma_sp_items_items(s, 1, l);
    }
}

/// Two lists with the same encoding are the same list.
pub proof fn lemma_json_of_injective(a: Seq<u32>, b: Seq<u32>)
    requires
        json_of(a) == json_of(b),
    ensures
        a == b,
{
    lemma_parse_round_trip(a);
    lemma_parse_round_trip(b);
}

fn parse_digits_at(s: &str, i: usize, acc: u32) -> (r: Option<(u32, usize)>)
    requires
        i <= s@.len(),
    ensures
        match r {
            Some(p) => sp_digits(s@, i as nat, acc) == Some((p.0, p.1 as nat)) && i <= p.1
                <= s@.len(),
            None => sp_digits(s@, i as nat, acc) is None,
        },
    decreases s@.len() - i,
{
    if i >= s.unicode_len() {
        return Some((acc, i));
    }
    let c = s.get_char(i);
    let cu: u32 = c as u32;
    if cu < 48 || cu > 57 {
        return Some((acc, i));
    }
    let d: u32 = cu - 48;
    let next: u64 = acc as u64 * 10 + d as u64;
    if next > u32::MAX as u64 {
        return None;
    }
    parse_digits_at(s, i + 1, next as u32)
}

fn parse_num_at(s: &str, i: usize) -> (r: Option<(u32, usize)>)
    requires
        i <= s@.len(),
    ensures
        match r {
            Some(p) => sp_num(s@, i as nat) == Some((p.0, p.1 as nat)) && i < p.1 <= s@.len(),
            None => sp_num(s@, i as nat) is None,
        },
{
    let n = s.unicode_len();
    if i >= n {
        return None;
    }
    let c = s.get_char(i);
    let cu: u32 = c as u32;
    if cu < 48 || cu > 57 {
        return None;
    }
    if c == '0' {
        if i + 1 < n {
            let c2 = s.get_char(i + 1);
            let cu2: u32 = c2 as u32;
            if 48 <= cu2 && cu2 <= 57 {
                return None;
            }
        }
        return Some((0, i + 1));
    }
    let r = parse_digits_at(s, i, 0);
    proof {
        if r is Some {
            // the first digit is consumed, so the end lies past i
            assert(sp_digits(s@, i as nat, 0) == sp_digits(s@, (i + 1) as nat, digit_val(s@[i as int]) as u32));
            lemma_sp_digits_end_ge(s@, (i + 1) as nat, digit_val(s@[i as int]) as u32);
        }
    }
    r
}

proof fn lemma_sp_digits_end_ge(s: Seq<char>, i: nat, acc: u32)
    ensures
        sp_digits(s, i, acc) is Some ==> sp_digits(s, i, acc)->Some_0.1 >= i,
    decreases s.len() - i,
{
    if i < s.len() && is_digit_char(s[i as int]) {
        let d: int = digit_val(s[i as int]);
        if (acc as int) * 10 + d <= u32::MAX as int {
            lemma_sp_digits_end_ge(s, i + 1, ((acc as int) * 10 + d) as u32);
        }
    }
}

fn parse_items_at(s: &str, i: usize) -> (r: Option<(Vec<u32>, usize)>)
    requires
        i <= s@.len(),
    ensures
        match r {
            Some(p) => sp_items(s@, i as nat) == Some((p.0@, p.1 as nat)) && p.1 <= s@.len(),
            None => sp_items(s@, i as nat) is None,
        },
    decreases s@.len() - i,
{
    match parse_num_at(s, i) {
        None => None,
        Some((v, j)) => {
            let n = s.unicode_len();
            if i < j && j < n && s.get_char(j) == ',' {
                match parse_items_at(s, j + 1) {
                    None => None,
                    Some((mut l, k)) => {
                        let ghost l0 = l@;
                        l.insert(0, v);
                        proof {
                            assert(l@ =~= seq![v] + l0);
                        }
                        Some((l, k))
                    },
                }
            } else {
                let mut one: Vec<u32> = Vec::new();
                one.push(v);
                proof {
                    assert(one@ =~= seq![v]);
                }
                Some((one, j))
            }
        },
    }
}

/// Deserialize a favorites-store record; `None` on anything but the
/// canonical form.
pub fn parse_favorites(s: &str) -> (r: Option<Vec<GoatId>>)
    ensures
        match r {
            Some(v) => spec_parse(s@) == Some(v@),
            None => spec_parse(s@) is None,
        },
{
    let n = s.unicode_len();
    if n < 2 || s.get_char(0) != '[' {
        return None;
    }
    if n == 2 && s.get_char(1) == ']' {
        let empty: Vec<GoatId> = Vec::new();
        proof {
            assert(empty@ =~= Seq::<u32>::empty());
        }
        return Some(empty);
    }
    match parse_items_at(s, 1) {
        None => None,
        Some((l, j)) => {
            if j < n && j + 1 == n && s.get_char(j) == ']' {
                Some(l)
            } else {
                None
            }
        },
    }
}

/// Reads a form-field id the way `str::parse::<u32>` does.
pub fn parse_goat_id(s: &str) -> (r: Option<GoatId>)
    ensures
        r == spec_parse_u32(s@),
{
    let n = s.unicode_len();
    let st: usize = if n >= 1 && s.get_char(0) == '+' { 1 } else { 0 };
    if n == st {
        return None;
    }
    match parse_digits_at(s, st, 0) {
        None => None,
        Some((v, j)) => if j == n { Some(v) } else { None },
    }
}

} // verus!
