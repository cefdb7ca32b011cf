use vstd::prelude::*;

verus! {

/// Process-wide configuration, constructed once at startup from the
/// environment by the caller and passed explicitly to every component
/// that needs it; the library holds no ambient global.
#[derive(Debug)]
pub struct AppConfig {
    pub database_url: String,
    pub jwt_secret: String,
    pub app_host: String,
    pub app_port: u16,
}

impl AppConfig {
    pub fn new(database_url: String, jwt_secret: String, app_host: String, app_port: u16) -> (c:
        AppConfig)
        ensures
            c.database_url@ == database_url@,
            c.jwt_secret@ == jwt_secret@,
            c.app_host@ == app_host@,
            c.app_port == app_port,
    {
        AppConfig { database_url, jwt_secret, app_host, app_port }
    }
}

pub open spec fn is_dec_digit(c: char) -> bool {
    '0' <= c && c <= '9'
}

pub open spec fn dec_digit_value(c: char) -> int {
    c as int - '0' as int
}

/// The value of a digit string read in base ten.
pub open spec fn dec_value(s: Seq<char>) -> int
    decreases s.len(),
{
    if s.len() == 0 {
        0
    } else {
        dec_value(s.drop_last()) * 10 + dec_digit_value(s.last())
    }
}

pub open spec fn all_dec_digits(s: Seq<char>) -> bool {
    forall|i: int| 0 <= i < s.len() ==> is_dec_digit(#[trigger] s[i])
}

/// Reads a port number from a decimal string: one or more digits whose
/// value fits in sixteen bits, with no sign and no other characters.
pub fn parse_port(s: &str) -> (r: Option<u16>)
    ensures
        match r {
            Some(p) => s@.len() > 0 && all_dec_digits(s@) && p == dec_value(s@),
            None => s@.len() == 0 || !all_dec_digits(s@) || dec_value(s@) > u16::MAX,
        },
{
    let n = s.unicode_len();
    if n == 0 {
        return None;
    }
    let mut value: u32 = 0;
    let mut i: usize = 0;
    while i < n
        invariant
            0 <= i <= n,
            n == s@.len(),
            all_dec_digits(s@.take(i as int)),
            value == dec_value(s@.take(i as int)),
            value <= u16::MAX,
        decreases n - i,
    {
        let c = s.get_char(i);
        if c < '0' || c > '9' {
            assert(!is_dec_digit(s@[i as int]));
            return None;
        }
        let digit: u32 = (c as u32) - ('0' as u32);
        assert(digit == dec_digit_value(s@[i as int]));
        let next: u32 = value * 10 + digit;
        assert(s@.take(i as int + 1).drop_last() =~= s@.take(i as int));
        assert(dec_value(s@.take(i as int + 1)) == next);
        if next > u16::MAX as u32 {
            proof {
                if all_dec_digits(s@) {
                    lemma_dec_value_grows(s@, i as int + 1);
                }
            }
            return None;
        }
        value = next;
        i = i + 1;
        assert(s@.take(i as int).drop_last() =~= s@.take(i as int - 1));
    }
    assert(s@.take(n as int) =~= s@);
    Some(value as u16)
}

/// Once a prefix of a digit string exceeds the sixteen-bit range, every
/// longer prefix does too, so the whole string cannot name a port.
proof fn lemma_dec_value_grows(s: Seq<char>, i: int)
    requires
        0 <= i <= s.len(),
        all_dec_digits(s),
        dec_value(s.take(i)) > u16::MAX,
    ensures
        dec_value(s) > u16::MAX,
    decreases s.len() - i,
{
    if i < s.len() {
        assert(s.take(i + 1).drop_last() =~= s.take(i));
        assert(dec_value(s.take(i + 1)) == dec_value(s.take(i)) * 10 + dec_digit_value(s[i]));
        assert(dec_digit_value(s[i]) >= 0);
        lemma_dec_value_grows(s, i + 1);
    } else {
        assert(s.take(i) =~= s);
    }
}

} // verus!
