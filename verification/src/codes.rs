//! The texts of the SGR codes: numbers in decimal digits.

use vstd::prelude::*;

verus! {

/// The character of a digit.
pub open spec fn digit(d: nat) -> char {
    if d == 0 {
        '0'
    } else if d == 1 {
        '1'
    } else if d == 2 {
        '2'
    } else if d == 3 {
        '3'
    } else if d == 4 {
        '4'
    } else if d == 5 {
        '5'
    } else if d == 6 {
        '6'
    } else if d == 7 {
        '7'
    } else if d == 8 {
        '8'
    } else {
        '9'
    }
}

/// A number in decimal digits, without leading zeros.
pub open spec fn decimal(n: nat) -> Seq<char>
    decreases n,
{
    if n < 10 {
        seq![digit(n)]
    } else {
        decimal(n / 10).push(digit(n % 10))
    }
}

/// A number below a thousand, digit by digit.
pub proof fn lemma_decimal(n: nat)
    requires
        n < 1000,
    ensures
        n < 10 ==> decimal(n) == seq![digit(n)],
        10 <= n < 100 ==> decimal(n) == seq![digit(n / 10), digit(n % 10)],
        100 <= n ==> decimal(n) == seq![digit(n / 100), digit(n / 10 % 10), digit(n % 10)],
{
    reveal_with_fuel(decimal, 3);
    if 10 <= n < 100 {
        assert(decimal(n) =~= seq![digit(n / 10), digit(n % 10)]);
    } else if 100 <= n {
        assert(n / 10 / 10 == n / 100);
        assert(decimal(n) =~= seq![digit(n / 100), digit(n / 10 % 10), digit(n % 10)]);
    }
}

/// The codes that this library writes, as the literals that stand in its tables.
pub proof fn lemma_code_texts()
    ensures
        "1"@ == decimal(1),
        "2"@ == decimal(2),
        "3"@ == decimal(3),
        "4"@ == decimal(4),
        "5"@ == decimal(5),
        "6"@ == decimal(6),
        "7"@ == decimal(7),
        "8"@ == decimal(8),
        "9"@ == decimal(9),
        "22"@ == decimal(22),
        "23"@ == decimal(23),
        "24"@ == decimal(24),
        "25"@ == decimal(25),
        "27"@ == decimal(27),
        "28"@ == decimal(28),
        "29"@ == decimal(29),
        "30"@ == decimal(30),
        "31"@ == decimal(31),
        "32"@ == decimal(32),
        "33"@ == decimal(33),
        "34"@ == decimal(34),
        "35"@ == decimal(35),
        "36"@ == decimal(36),
        "37"@ == decimal(37),
        "39"@ == decimal(39),
        "40"@ == decimal(40),
        "41"@ == decimal(41),
        "42"@ == decimal(42),
        "43"@ == decimal(43),
        "44"@ == decimal(44),
        "45"@ == decimal(45),
        "46"@ == decimal(46),
        "47"@ == decimal(47),
        "49"@ == decimal(49),
        "90"@ == decimal(90),
        "91"@ == decimal(91),
        "92"@ == decimal(92),
        "93"@ == decimal(93),
        "94"@ == decimal(94),
        "95"@ == decimal(95),
        "96"@ == decimal(96),
        "97"@ == decimal(97),
        "100"@ == decimal(100),
        "101"@ == decimal(101),
        "102"@ == decimal(102),
        "103"@ == decimal(103),
        "104"@ == decimal(104),
        "105"@ == decimal(105),
        "106"@ == decimal(106),
        "107"@ == decimal(107),
{
    reveal_strlit("1");
    lemma_decimal(1);
    assert("1"@ =~= seq!['1']);
    reveal_strlit("2");
    lemma_decimal(2);
    assert("2"@ =~= seq!['2']);
    reveal_strlit("3");
    lemma_decimal(3);
    assert("3"@ =~= seq!['3']);
    reveal_strlit("4");
    lemma_decimal(4);
    assert("4"@ =~= seq!['4']);
    reveal_strlit("5");
    lemma_decimal(5);
    assert("5"@ =~= seq!['5']);
    reveal_strlit("6");
    lemma_decimal(6);
    assert("6"@ =~= seq!['6']);
    reveal_strlit("7");
    lemma_decimal(7);
    assert("7"@ =~= seq!['7']);
    reveal_strlit("8");
    lemma_decimal(8);
    assert("8"@ =~= seq!['8']);
    reveal_strlit("9");
    lemma_decimal(9);
    assert("9"@ =~= seq!['9']);
    reveal_strlit("22");
    lemma_decimal(22);
    assert("22"@ =~= seq!['2', '2']);
    reveal_strlit("23");
    lemma_decimal(23);
    assert("23"@ =~= seq!['2', '3']);
    reveal_strlit("24");
    lemma_decimal(24);
    assert("24"@ =~= seq!['2', '4']);
    reveal_strlit("25");
    lemma_decimal(25);
    assert("25"@ =~= seq!['2', '5']);
    reveal_strlit("27");
    lemma_decimal(27);
    assert("27"@ =~= seq!['2', '7']);
    reveal_strlit("28");
    lemma_decimal(28);
    assert("28"@ =~= seq!['2', '8']);
    reveal_strlit("29");
    lemma_decimal(29);
    assert("29"@ =~= seq!['2', '9']);
    reveal_strlit("30");
    lemma_decimal(30);
    assert("30"@ =~= seq!['3', '0']);
    reveal_strlit("31");
    lemma_decimal(31);
    assert("31"@ =~= seq!['3', '1']);
    reveal_strlit("32");
    lemma_decimal(32);
    assert("32"@ =~= seq!['3', '2']);
    reveal_strlit("33");
    lemma_decimal(33);
    assert("33"@ =~= seq!['3', '3']);
    reveal_strlit("34");
    lemma_decimal(34);
    assert("34"@ =~= seq!['3', '4']);
    reveal_strlit("35");
    lemma_decimal(35);
    assert("35"@ =~= seq!['3', '5']);
    reveal_strlit("36");
    lemma_decimal(36);
    assert("36"@ =~= seq!['3', '6']);
    reveal_strlit("37");
    lemma_decimal(37);
    assert("37"@ =~= seq!['3', '7']);
    reveal_strlit("39");
    lemma_decimal(39);
    assert("39"@ =~= seq!['3', '9']);
    reveal_strlit("40");
    lemma_decimal(40);
    assert("40"@ =~= seq!['4', '0']);
    reveal_strlit("41");
    lemma_decimal(41);
    assert("41"@ =~= seq!['4', '1']);
    reveal_strlit("42");
    lemma_decimal(42);
    assert("42"@ =~= seq!['4', '2']);
    reveal_strlit("43");
    lemma_decimal(43);
    assert("43"@ =~= seq!['4', '3']);
    reveal_strlit("44");
    lemma_decimal(44);
    assert("44"@ =~= seq!['4', '4']);
    reveal_strlit("45");
    lemma_decimal(45);
    assert("45"@ =~= seq!['4', '5']);
    reveal_strlit("46");
    lemma_decimal(46);
    assert("46"@ =~= seq!['4', '6']);
    reveal_strlit("47");
    lemma_decimal(47);
    assert("47"@ =~= seq!['4', '7']);
    reveal_strlit("49");
    lemma_decimal(49);
    assert("49"@ =~= seq!['4', '9']);
    reveal_strlit("90");
    lemma_decimal(90);
    assert("90"@ =~= seq!['9', '0']);
    reveal_strlit("91");
    lemma_decimal(91);
    assert("91"@ =~= seq!['9', '1']);
    reveal_strlit("92");
    lemma_decimal(92);
    assert("92"@ =~= seq!['9', '2']);
    reveal_strlit("93");
    lemma_decimal(93);
    assert("93"@ =~= seq!['9', '3']);
    reveal_strlit("94");
    lemma_decimal(94);
    assert("94"@ =~= seq!['9', '4']);
    reveal_strlit("95");
    lemma_decimal(95);
    assert("95"@ =~= seq!['9', '5']);
    reveal_strlit("96");
    lemma_decimal(96);
    assert("96"@ =~= seq!['9', '6']);
    reveal_strlit("97");
    lemma_decimal(97);
    assert("97"@ =~= seq!['9', '7']);
    reveal_strlit("100");
    lemma_decimal(100);
    assert("100"@ =~= seq!['1', '0', '0']);
    reveal_strlit("101");
    lemma_decimal(101);
    assert("101"@ =~= seq!['1', '0', '1']);
    reveal_strlit("102");
    lemma_decimal(102);
    assert("102"@ =~= seq!['1', '0', '2']);
    reveal_strlit("103");
    lemma_decimal(103);
    assert("103"@ =~= seq!['1', '0', '3']);
    reveal_strlit("104");
    lemma_decimal(104);
    assert("104"@ =~= seq!['1', '0', '4']);
    reveal_strlit("105");
    lemma_decimal(105);
    assert("105"@ =~= seq!['1', '0', '5']);
    reveal_strlit("106");
    lemma_decimal(106);
    assert("106"@ =~= seq!['1', '0', '6']);
    reveal_strlit("107");
    lemma_decimal(107);
    assert("107"@ =~= seq!['1', '0', '7']);
}

} // verus!
