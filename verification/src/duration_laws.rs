//! Laws of session durations: what each unit of `parse_duration` means.

use vstd::prelude::*;
use crate::text;
use crate::keys;

verus! {

proof fn lemma_digits_value_agree(d: Seq<char>)
    ensures keys::digits_value(d) == crate::args::digits_value(d),
    decreases d.len(),
{
    if d.len() > 0 {
        lemma_digits_value_agree(d.drop_last());
    }
}

/// A positive number written in decimal and followed by a unit without digits
/// or trailing blanks reads as that number of units.
proof fn lemma_number_then_unit(n: nat, unit: Seq<char>)
    requires
        0 < n <= u64::MAX,
        forall|j: int| 0 <= j < unit.len() ==> !text::is_digit(#[trigger] unit[j]) && !text::is_ws(unit[j]),
    ensures
        keys::duration_of(text::dec(n) + unit) == match keys::unit_seconds(unit) {
            None => Err::<nat, Seq<char>>("invalid duration unit: "@ + unit),
            Some(m) => if n * m > u64::MAX {
                Err::<nat, Seq<char>>("duration is too large: "@ + (text::dec(n) + unit))
            } else {
                Ok::<nat, Seq<char>>(n * m)
            },
        },
{
    let d = text::dec(n);
    crate::args::lemma_decimal_reads_back(n, n);
    lemma_digits_value_agree(d);
    let v = d + unit;
    assert(forall|j: int| 0 <= j < d.len() ==> text::is_digit(#[trigger] d[j]));
    assert(v[0] == d[0]);
    assert(!text::is_ws(v[0]));
    text::lemma_lead_len(v, text::ws_pred(), 0);
    assert(text::trim_start(v) =~= v);
    assert(!text::is_ws(v.last())) by {
        if unit.len() > 0 {
            assert(v.last() == unit[unit.len() - 1]);
        } else {
            assert(v.last() == d[d.len() - 1]);
        }
    }
    assert(text::trail_len(v, text::ws_pred()) == 0);
    assert(text::trim_end(v) =~= v);
    assert(text::trim(v) == v);
    assert forall|j: int| 0 <= j < d.len() implies (text::digit_pred())(#[trigger] v[j]) by {
        assert(v[j] == d[j]);
    }
    if unit.len() > 0 {
        assert(v[d.len() as int] == unit[0]);
    }
    text::lemma_lead_len(v, text::digit_pred(), d.len() as int);
    assert(v.subrange(0, d.len() as int) =~= d);
    assert(v.subrange(d.len() as int, v.len() as int) =~= unit);
}

/// Each unit of a duration means its number of seconds: a day 86400, an hour
/// 3600, a minute 60 and a second 1, in every spelling; for any positive
/// count whose total fits in 64 bits.
pub proof fn lemma_duration_units(n: nat)
    requires 0 < n, n * 86400 <= u64::MAX,
    ensures
        keys::duration_of(text::dec(n) + "d"@) == Ok::<nat, Seq<char>>(n * 86400),
        keys::duration_of(text::dec(n) + "day"@) == Ok::<nat, Seq<char>>(n * 86400),
        keys::duration_of(text::dec(n) + "days"@) == Ok::<nat, Seq<char>>(n * 86400),
        keys::duration_of(text::dec(n) + "h"@) == Ok::<nat, Seq<char>>(n * 3600),
        keys::duration_of(text::dec(n) + "hr"@) == Ok::<nat, Seq<char>>(n * 3600),
        keys::duration_of(text::dec(n) + "hrs"@) == Ok::<nat, Seq<char>>(n * 3600),
        keys::duration_of(text::dec(n) + "m"@) == Ok::<nat, Seq<char>>(n * 60),
        keys::duration_of(text::dec(n) + "min"@) == Ok::<nat, Seq<char>>(n * 60),
        keys::duration_of(text::dec(n) + "mins"@) == Ok::<nat, Seq<char>>(n * 60),
        keys::duration_of(text::dec(n) + "s"@) == Ok::<nat, Seq<char>>(n),
        keys::duration_of(text::dec(n) + "sec"@) == Ok::<nat, Seq<char>>(n),
        keys::duration_of(text::dec(n) + "secs"@) == Ok::<nat, Seq<char>>(n),
        keys::duration_of(text::dec(n)) == Ok::<nat, Seq<char>>(n),
{
    reveal_strlit("");
    reveal_strlit("s");
    reveal_strlit("sec");
    reveal_strlit("secs");
    reveal_strlit("m");
    reveal_strlit("min");
    reveal_strlit("mins");
    reveal_strlit("h");
    reveal_strlit("hr");
    reveal_strlit("hrs");
    reveal_strlit("d");
    reveal_strlit("day");
    reveal_strlit("days");
    assert("s"@ =~= seq!['s']);
    assert("sec"@ =~= seq!['s', 'e', 'c']);
    assert("secs"@ =~= seq!['s', 'e', 'c', 's']);
    assert("m"@ =~= seq!['m']);
    assert("min"@ =~= seq!['m', 'i', 'n']);
    assert("mins"@ =~= seq!['m', 'i', 'n', 's']);
    assert("h"@ =~= seq!['h']);
    assert("hr"@ =~= seq!['h', 'r']);
    assert("hrs"@ =~= seq!['h', 'r', 's']);
    assert("d"@ =~= seq!['d']);
    assert("day"@ =~= seq!['d', 'a', 'y']);
    assert("days"@ =~= seq!['d', 'a', 'y', 's']);
    assert(""@ =~= Seq::<char>::empty());
    assert("s"@[0] == 's');
    assert("m"@[0] == 'm');
    assert("h"@[0] == 'h');
    assert("d"@[0] == 'd');
    assert("s"@ != "m"@) by { assert("s"@[0] != "m"@[0]); }
    assert("s"@ != "h"@) by { assert("s"@[0] != "h"@[0]); }
    assert("s"@ != "d"@) by { assert("s"@[0] != "d"@[0]); }
    assert("m"@ != "h"@) by { assert("m"@[0] != "h"@[0]); }
    assert("m"@ != "d"@) by { assert("m"@[0] != "d"@[0]); }
    assert("h"@ != "d"@) by { assert("h"@[0] != "d"@[0]); }
    assert(n * 3600 <= u64::MAX && n * 60 <= u64::MAX && n * 1 <= u64::MAX) by (nonlinear_arith)
        requires n * 86400 <= u64::MAX, n > 0;
    assert(keys::duration_of(text::dec(n) + "d"@) == Ok::<nat, Seq<char>>(n * 86400)) by {
        reveal_strlit("d");
        assert("d"@ =~= seq!['d']);
        lemma_number_then_unit(n, "d"@);
    }
    assert(keys::duration_of(text::dec(n) + "day"@) == Ok::<nat, Seq<char>>(n * 86400)) by {
        reveal_strlit("day");
        assert("day"@ =~= seq!['d', 'a', 'y']);
        lemma_number_then_unit(n, "day"@);
    }
    assert(keys::duration_of(text::dec(n) + "days"@) == Ok::<nat, Seq<char>>(n * 86400)) by {
        reveal_strlit("days");
        assert("days"@ =~= seq!['d', 'a', 'y', 's']);
        lemma_number_then_unit(n, "days"@);
    }
    assert(keys::duration_of(text::dec(n) + "h"@) == Ok::<nat, Seq<char>>(n * 3600)) by {
        reveal_strlit("h");
        assert("h"@ =~= seq!['h']);
        lemma_number_then_unit(n, "h"@);
    }
    assert(keys::duration_of(text::dec(n) + "hr"@) == Ok::<nat, Seq<char>>(n * 3600)) by {
        reveal_strlit("hr");
        assert("hr"@ =~= seq!['h', 'r']);
        lemma_number_then_unit(n, "hr"@);
    }
    assert(keys::duration_of(text::dec(n) + "hrs"@) == Ok::<nat, Seq<char>>(n * 3600)) by {
        reveal_strlit("hrs");
        assert("hrs"@ =~= seq!['h', 'r', 's']);
        lemma_number_then_unit(n, "hrs"@);
    }
    assert(keys::duration_of(text::dec(n) + "m"@) == Ok::<nat, Seq<char>>(n * 60)) by {
        reveal_strlit("m");
        assert("m"@ =~= seq!['m']);
        lemma_number_then_unit(n, "m"@);
    }
    assert(keys::duration_of(text::dec(n) + "min"@) == Ok::<nat, Seq<char>>(n * 60)) by {
        reveal_strlit("min");
        assert("min"@ =~= seq!['m', 'i', 'n']);
        lemma_number_then_unit(n, "min"@);
    }
    assert(keys::duration_of(text::dec(n) + "mins"@) == Ok::<nat, Seq<char>>(n * 60)) by {
        reveal_strlit("mins");
        assert("mins"@ =~= seq!['m', 'i', 'n', 's']);
        lemma_number_then_unit(n, "mins"@);
    }
    assert(keys::duration_of(text::dec(n) + "s"@) == Ok::<nat, Seq<char>>(n)) by {
        reveal_strlit("s");
        assert("s"@ =~= seq!['s']);
        lemma_number_then_unit(n, "s"@);
    }
    assert(keys::duration_of(text::dec(n) + "sec"@) == Ok::<nat, Seq<char>>(n)) by {
        reveal_strlit("sec");
        assert("sec"@ =~= seq!['s', 'e', 'c']);
        lemma_number_then_unit(n, "sec"@);
    }
    assert(keys::duration_of(text::dec(n) + "secs"@) == Ok::<nat, Seq<char>>(n)) by {
        reveal_strlit("secs");
        assert("secs"@ =~= seq!['s', 'e', 'c', 's']);
        lemma_number_then_unit(n, "secs"@);
    }
    assert(keys::duration_of(text::dec(n)) == Ok::<nat, Seq<char>>(n)) by {
        reveal_strlit("");
        assert(text::dec(n) + ""@ =~= text::dec(n));
        lemma_number_then_unit(n, ""@);
    }
}

} // verus!
