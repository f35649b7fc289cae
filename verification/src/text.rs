//! Text as bytes: the characters that the notations use, one string each.
use vstd::prelude::*;
use vstd::string::{StrSliceExecFns, StringExecFns, StringSliceAdditionalSpecFns};

verus! {

/// The text whose characters are the given bytes.
pub open spec fn ascii(bytes: Seq<u8>) -> Seq<char> {
    Seq::new(bytes.len(), |i: int| bytes[i] as char)
}

/// A byte that the notations use: a letter, a digit, a space, a line feed, `%`,
/// or one of `* + , - /`.
pub open spec fn printable(b: u8) -> bool {
    b == 10 || b == 32 || b == 37 || (42 <= b <= 45) || (47 <= b <= 57) || (65 <= b <= 90) || (97 <= b <= 122)
}

/// The string of one character for a byte that the notations use.
pub(crate) fn one(b: u8) -> (s: &'static str)
    requires
        printable(b),
    ensures
        s@ == seq![b as char],
{
    if b == 10 {
        proof {
            reveal_strlit("\n");
        }
        assert("\n"@ =~= seq![10u8 as char]);
        "\n"
    } else if b == 32 {
        proof {
            reveal_strlit(" ");
        }
        assert(" "@ =~= seq![32u8 as char]);
        " "
    } else if b == 37 {
        proof {
            reveal_strlit("%");
        }
        assert("%"@ =~= seq![37u8 as char]);
        "%"
    } else if b == 42 {
        proof {
            reveal_strlit("*");
        }
        assert("*"@ =~= seq![42u8 as char]);
        "*"
    } else if b == 43 {
        proof {
            reveal_strlit("+");
        }
        assert("+"@ =~= seq![43u8 as char]);
        "+"
    } else if b == 44 {
        proof {
            reveal_strlit(",");
        }
        assert(","@ =~= seq![44u8 as char]);
        ","
    } else if b == 45 {
        proof {
            reveal_strlit("-");
        }
        assert("-"@ =~= seq![45u8 as char]);
        "-"
    } else if b == 47 {
        proof {
            reveal_strlit("/");
        }
        assert("/"@ =~= seq![47u8 as char]);
        "/"
    } else if b == 48 {
        proof {
            reveal_strlit("0");
        }
        assert("0"@ =~= seq![48u8 as char]);
        "0"
    } else if b == 49 {
        proof {
            reveal_strlit("1");
        }
        assert("1"@ =~= seq![49u8 as char]);
        "1"
    } else if b == 50 {
        proof {
            reveal_strlit("2");
        }
        assert("2"@ =~= seq![50u8 as char]);
        "2"
    } else if b == 51 {
        proof {
            reveal_strlit("3");
        }
        assert("3"@ =~= seq![51u8 as char]);
        "3"
    } else if b == 52 {
        proof {
            reveal_strlit("4");
        }
        assert("4"@ =~= seq![52u8 as char]);
        "4"
    } else if b == 53 {
        proof {
            reveal_strlit("5");
        }
        assert("5"@ =~= seq![53u8 as char]);
        "5"
    } else if b == 54 {
        proof {
            reveal_strlit("6");
        }
        assert("6"@ =~= seq![54u8 as char]);
        "6"
    } else if b == 55 {
        proof {
            reveal_strlit("7");
        }
        assert("7"@ =~= seq![55u8 as char]);
        "7"
    } else if b == 56 {
        proof {
            reveal_strlit("8");
        }
        assert("8"@ =~= seq![56u8 as char]);
        "8"
    } else if b == 57 {
        proof {
            reveal_strlit("9");
        }
        assert("9"@ =~= seq![57u8 as char]);
        "9"
    } else if b == 65 {
        proof {
            reveal_strlit("A");
        }
        assert("A"@ =~= seq![65u8 as char]);
        "A"
    } else if b == 66 {
        proof {
            reveal_strlit("B");
        }
        assert("B"@ =~= seq![66u8 as char]);
        "B"
    } else if b == 67 {
        proof {
            reveal_strlit("C");
        }
        assert("C"@ =~= seq![67u8 as char]);
        "C"
    } else if b == 68 {
        proof {
            reveal_strlit("D");
        }
        assert("D"@ =~= seq![68u8 as char]);
        "D"
    } else if b == 69 {
        proof {
            reveal_strlit("E");
        }
        assert("E"@ =~= seq![69u8 as char]);
        "E"
    } else if b == 70 {
        proof {
            reveal_strlit("F");
        }
        assert("F"@ =~= seq![70u8 as char]);
        "F"
    } else if b == 71 {
        proof {
            reveal_strlit("G");
        }
        assert("G"@ =~= seq![71u8 as char]);
        "G"
    } else if b == 72 {
        proof {
            reveal_strlit("H");
        }
        assert("H"@ =~= seq![72u8 as char]);
        "H"
    } else if b == 73 {
        proof {
            reveal_strlit("I");
        }
        assert("I"@ =~= seq![73u8 as char]);
        "I"
    } else if b == 74 {
        proof {
            reveal_strlit("J");
        }
        assert("J"@ =~= seq![74u8 as char]);
        "J"
    } else if b == 75 {
        proof {
            reveal_strlit("K");
        }
        assert("K"@ =~= seq![75u8 as char]);
        "K"
    } else if b == 76 {
        proof {
            reveal_strlit("L");
        }
        assert("L"@ =~= seq![76u8 as char]);
        "L"
    } else if b == 77 {
        proof {
            reveal_strlit("M");
        }
        assert("M"@ =~= seq![77u8 as char]);
        "M"
    } else if b == 78 {
        proof {
            reveal_strlit("N");
        }
        assert("N"@ =~= seq![78u8 as char]);
        "N"
    } else if b == 79 {
        proof {
            reveal_strlit("O");
        }
        assert("O"@ =~= seq![79u8 as char]);
        "O"
    } else if b == 80 {
        proof {
            reveal_strlit("P");
        }
        assert("P"@ =~= seq![80u8 as char]);
        "P"
    } else if b == 81 {
        proof {
            reveal_strlit("Q");
        }
        assert("Q"@ =~= seq![81u8 as char]);
        "Q"
    } else if b == 82 {
        proof {
            reveal_strlit("R");
        }
        assert("R"@ =~= seq![82u8 as char]);
        "R"
    } else if b == 83 {
        proof {
            reveal_strlit("S");
        }
        assert("S"@ =~= seq![83u8 as char]);
        "S"
    } else if b == 84 {
        proof {
            reveal_strlit("T");
        }
        assert("T"@ =~= seq![84u8 as char]);
        "T"
    } else if b == 85 {
        proof {
            reveal_strlit("U");
        }
        assert("U"@ =~= seq![85u8 as char]);
        "U"
    } else if b == 86 {
        proof {
            reveal_strlit("V");
        }
        assert("V"@ =~= seq![86u8 as char]);
        "V"
    } else if b == 87 {
        proof {
            reveal_strlit("W");
        }
        assert("W"@ =~= seq![87u8 as char]);
        "W"
    } else if b == 88 {
        proof {
            reveal_strlit("X");
        }
        assert("X"@ =~= seq![88u8 as char]);
        "X"
    } else if b == 89 {
        proof {
            reveal_strlit("Y");
        }
        assert("Y"@ =~= seq![89u8 as char]);
        "Y"
    } else if b == 90 {
        proof {
            reveal_strlit("Z");
        }
        assert("Z"@ =~= seq![90u8 as char]);
        "Z"
    } else if b == 97 {
        proof {
            reveal_strlit("a");
        }
        assert("a"@ =~= seq![97u8 as char]);
        "a"
    } else if b == 98 {
        proof {
            reveal_strlit("b");
        }
        assert("b"@ =~= seq![98u8 as char]);
        "b"
    } else if b == 99 {
        proof {
            reveal_strlit("c");
        }
        assert("c"@ =~= seq![99u8 as char]);
        "c"
    } else if b == 100 {
        proof {
            reveal_strlit("d");
        }
        assert("d"@ =~= seq![100u8 as char]);
        "d"
    } else if b == 101 {
        proof {
            reveal_strlit("e");
        }
        assert("e"@ =~= seq![101u8 as char]);
        "e"
    } else if b == 102 {
        proof {
            reveal_strlit("f");
        }
        assert("f"@ =~= seq![102u8 as char]);
        "f"
    } else if b == 103 {
        proof {
            reveal_strlit("g");
        }
        assert("g"@ =~= seq![103u8 as char]);
        "g"
    } else if b == 104 {
        proof {
            reveal_strlit("h");
        }
        assert("h"@ =~= seq![104u8 as char]);
        "h"
    } else if b == 105 {
        proof {
            reveal_strlit("i");
        }
        assert("i"@ =~= seq![105u8 as char]);
        "i"
    } else if b == 106 {
        proof {
            reveal_strlit("j");
        }
        assert("j"@ =~= seq![106u8 as char]);
        "j"
    } else if b == 107 {
        proof {
            reveal_strlit("k");
        }
        assert("k"@ =~= seq![107u8 as char]);
        "k"
    } else if b == 108 {
        proof {
            reveal_strlit("l");
        }
        assert("l"@ =~= seq![108u8 as char]);
        "l"
    } else if b == 109 {
        proof {
            reveal_strlit("m");
        }
        assert("m"@ =~= seq![109u8 as char]);
        "m"
    } else if b == 110 {
        proof {
            reveal_strlit("n");
        }
        assert("n"@ =~= seq![110u8 as char]);
        "n"
    } else if b == 111 {
        proof {
            reveal_strlit("o");
        }
        assert("o"@ =~= seq![111u8 as char]);
        "o"
    } else if b == 112 {
        proof {
            reveal_strlit("p");
        }
        assert("p"@ =~= seq![112u8 as char]);
        "p"
    } else if b == 113 {
        proof {
            reveal_strlit("q");
        }
        assert("q"@ =~= seq![113u8 as char]);
        "q"
    } else if b == 114 {
        proof {
            reveal_strlit("r");
        }
        assert("r"@ =~= seq![114u8 as char]);
        "r"
    } else if b == 115 {
        proof {
            reveal_strlit("s");
        }
        assert("s"@ =~= seq![115u8 as char]);
        "s"
    } else if b == 116 {
        proof {
            reveal_strlit("t");
        }
        assert("t"@ =~= seq![116u8 as char]);
        "t"
    } else if b == 117 {
        proof {
            reveal_strlit("u");
        }
        assert("u"@ =~= seq![117u8 as char]);
        "u"
    } else if b == 118 {
        proof {
            reveal_strlit("v");
        }
        assert("v"@ =~= seq![118u8 as char]);
        "v"
    } else if b == 119 {
        proof {
            reveal_strlit("w");
        }
        assert("w"@ =~= seq![119u8 as char]);
        "w"
    } else if b == 120 {
        proof {
            reveal_strlit("x");
        }
        assert("x"@ =~= seq![120u8 as char]);
        "x"
    } else if b == 121 {
        proof {
            reveal_strlit("y");
        }
        assert("y"@ =~= seq![121u8 as char]);
        "y"
    } else if b == 122 {
        proof {
            reveal_strlit("z");
        }
        assert("z"@ =~= seq![122u8 as char]);
        "z"
    } else {
        proof {
            assert(false);
        }
        ""
    }
}

/// Appends one character.
pub(crate) fn push_byte(s: &mut String, b: u8)
    requires
        printable(b),
    ensures
        final(s)@ == old(s)@ + ascii(seq![b]),
{
    let t = one(b);
    s.append(t);
    assert(s@ =~= old(s)@ + ascii(seq![b]));
}

/// Makes a string of the given bytes.
pub(crate) fn string_of(bytes: &Vec<u8>) -> (s: String)
    requires
        forall|i: int| 0 <= i < bytes@.len() ==> printable(#[trigger] bytes@[i]),
    ensures
        s@ == ascii(bytes@),
{
    let mut s: String = String::new();
    let mut i: usize = 0;
    while i < bytes.len()
        invariant
            0 <= i <= bytes@.len(),
            forall|j: int| 0 <= j < bytes@.len() ==> printable(#[trigger] bytes@[j]),
            s@ == ascii(bytes@.take(i as int)),
        decreases bytes@.len() - i,
    {
        push_byte(&mut s, bytes[i]);
        assert(ascii(bytes@.take(i as int)) + ascii(seq![bytes@[i as int]]) =~= ascii(bytes@.take(i + 1)));
        i = i + 1;
    }
    assert(bytes@.take(bytes@.len() as int) =~= bytes@);
    s
}

/// The bytes of a string.
pub(crate) fn bytes_of(s: &str) -> (v: Vec<u8>)
    ensures
        v@ == s.spec_bytes(),
{
    s.as_bytes_vec()
}

} // verus!
