//! The names under which a key-value store holds the shop's state.

use vstd::prelude::*;

verus! {

/// The character of a decimal digit.
pub open spec fn digit_char(d: nat) -> char {
    if d == 0 {
        '0'
    } else if d == 1 {
        '1'
    } else if d == 2 {
        '2'
    } else if d == 3 {
        '3'
    } else if d == 4 {
        '4'
    } else if d == 5 {
        '5'
    } else if d == 6 {
        '6'
    } else if d == 7 {
        '7'
    } else if d == 8 {
        '8'
    } else {
        '9'
    }
}

/// A number in decimal digits, without leading zeros.
pub open spec fn decimal_digits(n: nat) -> Seq<char>
    decreases n,
{
    if n < 10 {
        seq![digit_char(n)]
    } else {
        decimal_digits(n / 10).push(digit_char(n % 10))
    }
}

/// The key of a pie's remaining count.
pub open spec fn remaining_key_of(pie_id: u64) -> Seq<char> {
    "item-"@ + decimal_digits(pie_id as nat) + "-remaining"@
}

/// The key of a pie's purchase ledger.
pub open spec fn purchases_key_of(pie_id: u64) -> Seq<char> {
    "item-"@ + decimal_digits(pie_id as nat) + "-purchases"@
}

/// The key of a customer's blacklist.
pub open spec fn user_blacklist_key_of(user: Seq<char>) -> Seq<char> {
    "user-"@ + user + "-blacklist"@
}

/// One decimal digit as text.
fn digit(d: u64) -> (text: &'static str)
    requires
        d < 10,
    ensures
        text@ == seq![digit_char(d as nat)],
{
    proof {
        reveal_strlit("0");
        reveal_strlit("1");
        reveal_strlit("2");
        reveal_strlit("3");
        reveal_strlit("4");
        reveal_strlit("5");
        reveal_strlit("6");
        reveal_strlit("7");
        reveal_strlit("8");
        reveal_strlit("9");
    }
    let text = if d == 0 {
        "0"
    } else if d == 1 {
        "1"
    } else if d == 2 {
        "2"
    } else if d == 3 {
        "3"
    } else if d == 4 {
        "4"
    } else if d == 5 {
        "5"
    } else if d == 6 {
        "6"
    } else if d == 7 {
        "7"
    } else if d == 8 {
        "8"
    } else {
        "9"
    };
    text
}

/// A number written in decimal digits.
pub fn decimal(n: u64) -> (text: String)
    ensures
        text@ == decimal_digits(n as nat),
    decreases n,
{
    if n < 10 {
        String::from_str(digit(n))
    } else {
        let mut text = decimal(n / 10);
        text.append(digit(n % 10));
        text
    }
}

/// The key of a pie's remaining count: `item-<id>-remaining`.
pub fn remaining_key(pie_id: u64) -> (key: String)
    ensures
        key@ == remaining_key_of(pie_id),
{
    let mut key = String::from_str("item-");
    key.append(decimal(pie_id).as_str());
    key.append("-remaining");
    key
}

/// The key of a pie's purchase ledger: `item-<id>-purchases`.
pub fn purchases_key(pie_id: u64) -> (key: String)
    ensures
        key@ == purchases_key_of(pie_id),
{
    let mut key = String::from_str("item-");
    key.append(decimal(pie_id).as_str());
    key.append("-purchases");
    key
}

/// The key of a customer's blacklist: `user-<name>-blacklist`.
pub fn user_blacklist_key(user: &str) -> (key: String)
    ensures
        key@ == user_blacklist_key_of(user@),
{
    let mut key = String::from_str("user-");
    key.append(user);
    key.append("-blacklist");
    key
}

/// The key of the shop's sold-out marks: `global-sold-out`.
pub fn sold_out_key() -> (key: String)
    ensures
        key@ == "global-sold-out"@,
{
    String::from_str("global-sold-out")
}

/// Different pies have different keys.
pub proof fn lemma_pie_keys_differ(a: u64, b: u64)
    requires
        remaining_key_of(a) == remaining_key_of(b) || purchases_key_of(a) == purchases_key_of(b),
    ensures
        a == b,
{
    let da = decimal_digits(a as nat);
    let db = decimal_digits(b as nat);
    let head = "item-"@;
    if remaining_key_of(a) == remaining_key_of(b) {
        let tail = "-remaining"@;
        assert(da.len() == db.len()) by {
            assert((head + da + tail).len() == (head + db + tail).len());
        }
        assert forall|i: int| 0 <= i < da.len() implies da[i] == db[i] by {
            assert((head + db + tail)[head.len() + i] == db[i]);
        }
    } else {
        let tail = "-purchases"@;
        assert(da.len() == db.len()) by {
            assert((head + da + tail).len() == (head + db + tail).len());
        }
        assert forall|i: int| 0 <= i < da.len() implies da[i] == db[i] by {
            assert((head + db + tail)[head.len() + i] == db[i]);
        }
    }
    assert(da =~= db);
    lemma_decimal_digits_name_one_number(a as nat, b as nat);
}

/// The digits of a number name it: two numbers with the same digits are one.
pub proof fn lemma_decimal_digits_name_one_number(a: nat, b: nat)
    requires
        decimal_digits(a) == decimal_digits(b),
    ensures
        a == b,
    decreases a,
{
    if a < 10 && b < 10 {
        assert(decimal_digits(b)[0] == digit_char(b));
        lemma_digit_chars_differ(a, b);
    } else if a < 10 {
        lemma_decimal_digits_len(b / 10);
    } else if b < 10 {
        lemma_decimal_digits_len(a / 10);
    } else {
        let x = decimal_digits(a / 10);
        let y = decimal_digits(b / 10);
        assert(decimal_digits(b) == y.push(digit_char(b % 10)));
        assert(x =~= decimal_digits(a).drop_last());
        assert(y =~= decimal_digits(b).drop_last());
        assert(digit_char(b % 10) == decimal_digits(b).last());
        lemma_digit_chars_differ(a % 10, b % 10);
        lemma_decimal_digits_name_one_number(a / 10, b / 10);
    }
}

/// Different digits have different characters.
proof fn lemma_digit_chars_differ(a: nat, b: nat)
    requires
        a < 10,
        b < 10,
        digit_char(a) == digit_char(b),
    ensures
        a == b,
{
}

/// A number has at least one digit.
proof fn lemma_decimal_digits_len(n: nat)
    ensures
        decimal_digits(n).len() >= 1,
    decreases n,
{
    if n >= 10 {
        lemma_decimal_digits_len(n / 10);
    }
}

} // verus!
