use vstd::prelude::*;

verus! {

/// The two charge behaviours of an ionisable group: the charge it carries at
/// low pH (protonated) and at high pH (deprotonated).
#[derive(Clone, Copy, Debug, PartialEq, Eq, Structural)]
pub enum GroupChargeOptions {
    /// +1 at low pH, 0 at high pH.
    PosOrNeu,
    /// 0 at low pH, -1 at high pH.
    NeuOrNeg,
}

/// Charge of a group of behaviour `gco` at low pH.
pub open spec fn low_ph_charge(gco: GroupChargeOptions) -> i32 {
    match gco {
        GroupChargeOptions::PosOrNeu => 1i32,
        GroupChargeOptions::NeuOrNeg => 0i32,
    }
}

/// Charge of a group of behaviour `gco` at high pH.
pub open spec fn high_ph_charge(gco: GroupChargeOptions) -> i32 {
    match gco {
        GroupChargeOptions::PosOrNeu => 0i32,
        GroupChargeOptions::NeuOrNeg => -1i32,
    }
}

/// The textual name of each behaviour.
pub open spec fn gco_name(gco: GroupChargeOptions) -> Seq<char> {
    match gco {
        GroupChargeOptions::PosOrNeu => seq!['P', 'o', 's', 'O', 'r', 'N', 'e', 'u'],
        GroupChargeOptions::NeuOrNeg => seq!['N', 'e', 'u', 'O', 'r', 'N', 'e', 'g'],
    }
}

/// Whether `s` names one of the behaviours.
pub open spec fn is_gco_name(s: Seq<char>) -> bool {
    s == gco_name(GroupChargeOptions::PosOrNeu) || s == gco_name(GroupChargeOptions::NeuOrNeg)
}

/// The behaviour that `s` names, when `is_gco_name(s)`.
pub open spec fn gco_of_name(s: Seq<char>) -> GroupChargeOptions {
    if s == gco_name(GroupChargeOptions::PosOrNeu) {
        GroupChargeOptions::PosOrNeu
    } else {
        GroupChargeOptions::NeuOrNeg
    }
}

/// Appends `text` to `out`.
fn push_text(out: &mut String, text: &str)
    ensures
        final(out)@ == old(out)@ + text@,
{
    out.append(text);
}

/// The decimal digits of `n`, most significant first.
pub open spec fn decimal(n: nat) -> Seq<char>
    decreases n,
{
    if n < 10 {
        seq![digit_char(n)]
    } else {
        decimal(n / 10).push(digit_char(n % 10))
    }
}

/// The character of a single decimal digit.
pub open spec fn digit_char(d: nat) -> char {
    if d == 0 {
        '0'
    } else if d == 1 {
        '1'
    } else if d == 2 {
        '2'
    } else if d == 3 {
        '3'
    } else if d == 4 {
        '4'
    } else if d == 5 {
        '5'
    } else if d == 6 {
        '6'
    } else if d == 7 {
        '7'
    } else if d == 8 {
        '8'
    } else {
        '9'
    }
}

fn digit_text(d: usize) -> (r: &'static str)
    requires
        d < 10,
    ensures
        r@ == seq![digit_char(d as nat)],
{
    proof {
        reveal_strlit("0");
        reveal_strlit("1");
        reveal_strlit("2");
        reveal_strlit("3");
        reveal_strlit("4");
        reveal_strlit("5");
        reveal_strlit("6");
        reveal_strlit("7");
        reveal_strlit("8");
        reveal_strlit("9");
    }
    let r = if d == 0 {
        "0"
    } else if d == 1 {
        "1"
    } else if d == 2 {
        "2"
    } else if d == 3 {
        "3"
    } else if d == 4 {
        "4"
    } else if d == 5 {
        "5"
    } else if d == 6 {
        "6"
    } else if d == 7 {
        "7"
    } else if d == 8 {
        "8"
    } else {
        "9"
    };
    assert(r@ =~= seq![digit_char(d as nat)]);
    r
}

/// Appends the decimal digits of `n` to `out`.
pub fn push_decimal(out: &mut String, n: usize)
    ensures
        final(out)@ == old(out)@ + decimal(n as nat),
    decreases n,
{
    if n < 10 {
        push_text(out, digit_text(n));
    } else {
        push_decimal(out, n / 10);
        push_text(out, digit_text(n % 10));
        assert(final(out)@ =~= old(out)@ + decimal(n as nat));
    }
}

impl GroupChargeOptions {
    /// Reads a behaviour from its name; any other text is refused, and the
    /// error message quotes it.
    pub fn from_str(arg: &str) -> (r: Result<Self, String>)
        ensures
            is_gco_name(arg@) <==> r is Ok,
            r matches Ok(g) ==> g == gco_of_name(arg@) && gco_name(g) == arg@,
            r matches Err(msg) ==> msg@ == gco_parse_error(arg@),
    {
        proof {
            reveal_strlit("PosOrNeu");
            reveal_strlit("NeuOrNeg");
        }
        assert("PosOrNeu"@ =~= gco_name(GroupChargeOptions::PosOrNeu));
        assert("NeuOrNeg"@ =~= gco_name(GroupChargeOptions::NeuOrNeg));
        if str_eq(arg, "PosOrNeu") {
            Ok(GroupChargeOptions::PosOrNeu)
        } else if str_eq(arg, "NeuOrNeg") {
            Ok(GroupChargeOptions::NeuOrNeg)
        } else {
            let mut msg = String::from_str("Unable to deserialize \"");
            push_text(&mut msg, arg);
            push_text(&mut msg, "\" to GroupChargeOptions");
            Err(msg)
        }
    }

    /// The charges of the group at low pH and at high pH.
    pub fn to_tuple(&self) -> (r: (i32, i32))
        ensures
            r == (low_ph_charge(*self), high_ph_charge(*self)),
    {
        match self {
            GroupChargeOptions::PosOrNeu => (1, 0),
            GroupChargeOptions::NeuOrNeg => (0, -1),
        }
    }
}

/// The message for a name that is no behaviour.
pub open spec fn gco_parse_error(arg: Seq<char>) -> Seq<char> {
    "Unable to deserialize \""@ + arg + "\" to GroupChargeOptions"@
}

/// Character-wise equality of two strings.
pub fn str_eq(a: &str, b: &str) -> (r: bool)
    ensures
        r == (a@ == b@),
{
    let n: usize = a.unicode_len();
    if n != b.unicode_len() {
        return false;
    }
    let mut i: usize = 0;
    while i < n
        invariant
            n == a@.len(),
            n == b@.len(),
            i <= n,
            a@.subrange(0, i as int) == b@.subrange(0, i as int),
        decreases n - i,
    {
        if a.get_char(i) != b.get_char(i) {
            return false;
        }
        assert(a@.subrange(0, i + 1) =~= a@.subrange(0, i as int).push(a@[i as int]));
        assert(b@.subrange(0, i + 1) =~= b@.subrange(0, i as int).push(b@[i as int]));
        i += 1;
    }
    assert(a@ =~= a@.subrange(0, n as int));
    assert(b@ =~= b@.subrange(0, n as int));
    true
}

} // verus!
