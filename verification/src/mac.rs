use vstd::prelude::*;
use vstd::string::StringExecFns;

verus! {

/// The lowercase hexadecimal digit for a nibble value.
pub open spec fn hex_char(n: u8) -> char {
    if n == 0 {
        '0'
    } else if n == 1 {
        '1'
    } else if n == 2 {
        '2'
    } else if n == 3 {
        '3'
    } else if n == 4 {
        '4'
    } else if n == 5 {
        '5'
    } else if n == 6 {
        '6'
    } else if n == 7 {
        '7'
    } else if n == 8 {
        '8'
    } else if n == 9 {
        '9'
    } else if n == 10 {
        'a'
    } else if n == 11 {
        'b'
    } else if n == 12 {
        'c'
    } else if n == 13 {
        'd'
    } else if n == 14 {
        'e'
    } else {
        'f'
    }
}

/// The two lowercase hex digits of one octet.
pub open spec fn octet_chars(o: u8) -> Seq<char> {
    seq![hex_char(o / 16), hex_char(o % 16)]
}

/// Colon-separated lowercase hex rendering of a sequence of octets.
pub open spec fn mac_chars(octets: Seq<u8>) -> Seq<char>
    decreases octets.len(),
{
    if octets.len() == 0 {
        Seq::empty()
    } else if octets.len() == 1 {
        octet_chars(octets[0])
    } else {
        mac_chars(octets.drop_last()) + seq![':'] + octet_chars(octets.last())
    }
}

/// Rendering n octets takes `3n - 1` characters (two digits per octet and a
/// colon between octets).
pub proof fn lemma_mac_chars_len(octets: Seq<u8>)
    ensures
        octets.len() == 0 ==> mac_chars(octets).len() == 0,
        octets.len() > 0 ==> mac_chars(octets).len() == 3 * octets.len() - 1,
    decreases octets.len(),
{
    if octets.len() > 1 {
        lemma_mac_chars_len(octets.drop_last());
    }
}

/// A well-formed generated MAC: the rendering of six octets whose first octet
/// has the multicast bit cleared and the locally-administered bit set.
pub open spec fn valid_mac(s: Seq<char>) -> bool {
    exists|octets: Seq<u8>|
        {
            &&& (#[trigger] mac_chars(octets)) == s
            &&& octets.len() == 6
            &&& octets[0] & 0x01 == 0
            &&& octets[0] & 0x02 == 0x02
        }
}

/// The one-character string for a nibble's lowercase hex digit.
fn hex_str(n: u8) -> (r: &'static str)
    requires
        n < 16,
    ensures
        r@ == seq![hex_char(n)],
{
    proof {
        reveal_strlit("0");
        reveal_strlit("1");
        reveal_strlit("2");
        reveal_strlit("3");
        reveal_strlit("4");
        reveal_strlit("5");
        reveal_strlit("6");
        reveal_strlit("7");
        reveal_strlit("8");
        reveal_strlit("9");
        reveal_strlit("a");
        reveal_strlit("b");
        reveal_strlit("c");
        reveal_strlit("d");
        reveal_strlit("e");
        reveal_strlit("f");
    }
    let r: &'static str = if n == 0 {
        "0"
    } else if n == 1 {
        "1"
    } else if n == 2 {
        "2"
    } else if n == 3 {
        "3"
    } else if n == 4 {
        "4"
    } else if n == 5 {
        "5"
    } else if n == 6 {
        "6"
    } else if n == 7 {
        "7"
    } else if n == 8 {
        "8"
    } else if n == 9 {
        "9"
    } else if n == 10 {
        "a"
    } else if n == 11 {
        "b"
    } else if n == 12 {
        "c"
    } else if n == 13 {
        "d"
    } else if n == 14 {
        "e"
    } else {
        "f"
    };
    proof {
        assert(r@ =~= seq![hex_char(n)]);
    }
    r
}

/// Render six octets as a lowercase colon-separated hex MAC string.
pub fn format_mac(octets: &[u8; 6]) -> (r: String)
    ensures
        r@ == mac_chars(octets@),
{
    let mut s = String::new();
    let mut i: usize = 0;
    while i < 6
        invariant
            i <= 6,
            s@ == mac_chars(octets@.take(i as int)),
        decreases 6 - i,
    {
        proof {
            reveal_strlit(":");
            assert(":"@ =~= seq![':']);
        }
        if i > 0 {
            s.append(":");
        }
        s.append(hex_str(octets[i] / 16));
        s.append(hex_str(octets[i] % 16));
        proof {
            let t = octets@.take(i + 1);
            assert(t.drop_last() =~= octets@.take(i as int));
            assert(t.last() == octets@[i as int]);
            assert(octet_chars(octets@[i as int]) =~= seq![
                hex_char(octets@[i as int] / 16),
                hex_char(octets@[i as int] % 16),
            ]);
            if i > 0 {
                assert(s@ =~= mac_chars(t));
            } else {
                assert(t =~= seq![octets@[0]]);
                assert(t.len() == 1);
                assert(s@ =~= mac_chars(t));
            }
        }
        i = i + 1;
    }
    proof {
        assert(octets@.take(6) =~= octets@);
    }
    s
}

/// Relies on `rand::random`: six octets drawn from the thread-local random
/// number generator.  Nothing is assumed about the values.
#[verifier::external_body]
fn random_octets() -> (r: [u8; 6]) {
    rand::random()
}

/// Generate a random unicast, locally-administered MAC address: six random
/// octets, the first with its multicast bit cleared and locally-administered
/// bit set, rendered as lowercase colon-separated hex.  Distinct calls carry
/// no uniqueness guarantee beyond the random source.
pub fn generate_mac() -> (r: String)
    ensures
        valid_mac(r@),
{
    let octets = random_octets();
    let first: u8 = (octets[0] & 0xfe) | 0x02;
    let fixed: [u8; 6] = [first, octets[1], octets[2], octets[3], octets[4], octets[5]];
    let r = format_mac(&fixed);
    proof {
        let x = octets@[0];
        assert(((x & 0xfe) | 0x02) & 0x01 == 0 && ((x & 0xfe) | 0x02) & 0x02 == 0x02)
            by (bit_vector);
        assert(fixed@.len() == 6);
        assert(fixed@[0] == first);
        assert(valid_mac(r@)) by {
            assert(mac_chars(fixed@) == r@);
        }
    }
    r
}

} // verus!
