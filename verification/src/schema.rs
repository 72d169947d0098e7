//! The on-disk schema-version sentinel of the vector store: reading its
//! contents and deciding whether a store may be opened.
use vstd::prelude::*;
use crate::strings::{chars_of, decimal, decimal_of, digit_char, extend, extend_str, string_of, trim, trim_vec};

verus! {

/// Version of the persisted column layout; a store stamped with another
/// version must be wiped and re-ingested.
pub const SCHEMA_VERSION: u32 = 1;

/// Why text is not a `u32` in decimal.
#[derive(Debug, Clone, Copy, PartialEq, Eq, Structural)]
pub enum NumberError {
    /// No characters at all.
    Empty,
    /// A character that is not a decimal digit (or a lone sign).
    InvalidDigit,
    /// The value exceeds `u32::MAX`.
    PosOverflow,
}

impl NumberError {
    pub open spec fn message_spec(&self) -> Seq<char> {
        match self {
            NumberError::Empty => "cannot parse integer from empty string"@,
            NumberError::InvalidDigit => "invalid digit found in string"@,
            NumberError::PosOverflow => "number too large to fit in target type"@,
        }
    }

    /// The error's human-readable message.
    pub fn message(&self) -> (r: String)
        ensures
            r@ == self.message_spec(),
    {
        match self {
            NumberError::Empty => string_of(&chars_of("cannot parse integer from empty string")),
            NumberError::InvalidDigit => string_of(&chars_of("invalid digit found in string")),
            NumberError::PosOverflow => string_of(&chars_of("number too large to fit in target type")),
        }
    }
}

pub open spec fn is_digit(c: char) -> bool {
    '0' <= c && c <= '9'
}

pub open spec fn digit_value(c: char) -> nat {
    (c as nat - '0' as nat) as nat
}

/// Left-to-right decimal scan of `d[i..]` onto `acc`: the first character
/// that is not a digit, or the first digit that takes the value past
/// `u32::MAX`, decides the error.
pub open spec fn digits_parse(d: Seq<char>, i: nat, acc: nat) -> Result<nat, NumberError>
    decreases d.len() - i,
{
    if i >= d.len() {
        Ok(acc)
    } else if !is_digit(d[i as int]) {
        Err(NumberError::InvalidDigit)
    } else if acc * 10 + digit_value(d[i as int]) > u32::MAX {
        Err(NumberError::PosOverflow)
    } else {
        digits_parse(d, i + 1, acc * 10 + digit_value(d[i as int]))
    }
}

/// Decimal `u32` with an optional leading `+`, as std parses it.
pub open spec fn parse_u32_spec(s: Seq<char>) -> Result<u32, NumberError> {
    if s.len() == 0 {
        Err(NumberError::Empty)
    } else if s == seq!['+'] || s == seq!['-'] {
        Err(NumberError::InvalidDigit)
    } else {
        let d = if s[0] == '+' {
            s.drop_first()
        } else {
            s
        };
        match digits_parse(d, 0, 0) {
            Ok(v) => Ok(v as u32),
            Err(e) => Err(e),
        }
    }
}

proof fn lemma_digits_parse_bound(d: Seq<char>, i: nat, acc: nat)
    requires
        acc <= u32::MAX,
    ensures
        digits_parse(d, i, acc) matches Ok(v) ==> v <= u32::MAX,
    decreases d.len() - i,
{
    if i < d.len() && is_digit(d[i as int]) && acc * 10 + digit_value(d[i as int]) <= u32::MAX {
        lemma_digits_parse_bound(d, i + 1, acc * 10 + digit_value(d[i as int]));
    }
}

/// One more character after a scan: the scan's value grows by that digit,
/// or the character is refused.
pub open spec fn scan_step(r: Result<nat, NumberError>, c: char) -> Result<nat, NumberError> {
    match r {
        Ok(v) => if !is_digit(c) {
            Err(NumberError::InvalidDigit)
        } else if v * 10 + digit_value(c) > u32::MAX {
            Err(NumberError::PosOverflow)
        } else {
            Ok(v * 10 + digit_value(c))
        },
        Err(e) => Err(e),
    }
}

proof fn lemma_digits_parse_push(d: Seq<char>, c: char, i: nat, acc: nat)
    requires
        i <= d.len(),
    ensures
        digits_parse(d.push(c), i, acc) == scan_step(digits_parse(d, i, acc), c),
    decreases d.len() - i,
{
    let e = d.push(c);
    if i == d.len() {
        assert(e[i as int] == c);
        if is_digit(c) && acc * 10 + digit_value(c) <= u32::MAX {
            assert(digits_parse(e, i + 1, acc * 10 + digit_value(c)) == Ok::<nat, NumberError>(acc * 10 + digit_value(c)));
        }
    } else {
        assert(e[i as int] == d[i as int]);
        if is_digit(d[i as int]) && acc * 10 + digit_value(d[i as int]) <= u32::MAX {
            lemma_digits_parse_push(d, c, i + 1, acc * 10 + digit_value(d[i as int]));
        }
    }
}

proof fn lemma_digit_char(n: nat)
    requires
        n < 10,
    ensures
        is_digit(digit_char(n)),
        digit_value(digit_char(n)) == n,
{
}

proof fn lemma_digits_parse_decimal(n: nat)
    requires
        n <= u32::MAX,
    ensures
        digits_parse(decimal(n), 0, 0) == Ok::<nat, NumberError>(n),
        decimal(n).len() > 0,
        is_digit(decimal(n)[0]),
    decreases n,
{
    if n < 10 {
        lemma_digit_char(n);
        let d = decimal(n);
        assert(d == seq![digit_char(n)]);
        assert(digits_parse(d, 1, n) == Ok::<nat, NumberError>(n));
    } else {
        lemma_digits_parse_decimal(n / 10);
        lemma_digit_char(n % 10);
        let d = decimal(n / 10);
        lemma_digits_parse_push(d, digit_char(n % 10), 0, 0);
        assert(decimal(n) == d.push(digit_char(n % 10)));
        assert(decimal(n)[0] == d[0]);
        assert((n / 10) * 10 + n % 10 == n);
    }
}

/// What the sentinel is written with reads back as the same version: the
/// decimal rendering of any `u32` parses to it.
pub proof fn lemma_decimal_parses_back(v: u32)
    ensures
        parse_u32_spec(decimal(v as nat)) == Ok::<u32, NumberError>(v),
{
    lemma_digits_parse_decimal(v as nat);
    let s = decimal(v as nat);
    assert(s[0] != '+' && s[0] != '-');
    if s == seq!['+'] || s == seq!['-'] {
        assert(s[0] == '+' || s[0] == '-');
    }
}

fn parse_u32(s: &Vec<char>) -> (r: Result<u32, NumberError>)
    ensures
        r == parse_u32_spec(s@),
{
    if s.len() == 0 {
        return Err(NumberError::Empty);
    }
    if s.len() == 1 && (s[0] == '+' || s[0] == '-') {
        assert(s@ =~= seq![s@[0]]);
        return Err(NumberError::InvalidDigit);
    }
    proof {
        if s@ == seq!['+'] || s@ == seq!['-'] {
            assert(s@.len() == 1);
        }
    }
    let start: usize = if s[0] == '+' { 1 } else { 0 };
    let ghost d = if s@[0] == '+' { s@.drop_first() } else { s@ };
    assert(d =~= s@.skip(start as int));
    let mut acc: u32 = 0;
    let mut i = start;
    proof {
        lemma_digits_parse_bound(d, 0, 0);
    }
    while i < s.len()
        invariant
            start <= i <= s.len(),
            d == s@.skip(start as int),
            digits_parse(d, 0, 0) == digits_parse(d, (i - start) as nat, acc as nat),
            parse_u32_spec(s@) == match digits_parse(d, 0, 0) {
                Ok(v) => Ok(v as u32),
                Err(e) => Err(e),
            },
            digits_parse(d, 0, 0) matches Ok(v) ==> v <= u32::MAX,
        decreases s.len() - i,
    {
        let c = s[i];
        assert(d[(i - start) as int] == c);
        if !('0' <= c && c <= '9') {
            return Err(NumberError::InvalidDigit);
        }
        let dv = (c as u32) - ('0' as u32);
        assert(dv == digit_value(c));
        if acc > 429496729 || (acc == 429496729 && dv > 5) {
            assert(acc * 10 + dv > u32::MAX);
            return Err(NumberError::PosOverflow);
        }
        acc = acc * 10 + dv;
        i += 1;
    }
    Ok(acc)
}

/// The sentinel's contents, trimmed, as a version number.
pub fn parse_schema_version(contents: &str) -> (r: Result<u32, NumberError>)
    ensures
        r == parse_u32_spec(trim(contents@)),
{
    parse_u32(&trim_vec(&chars_of(contents)))
}

/// The refusal for a store stamped with another schema version, with the
/// recovery command.
pub open spec fn mismatch_message(on_disk: u32, db_path: Seq<char>) -> Seq<char> {
    "schema v"@ + decimal(on_disk as nat) + " on disk at "@ + db_path + ", this binary expects v"@ + decimal(
        SCHEMA_VERSION as nat,
    ) + ". Recover with: rm -rf "@ + db_path + " && code-raptor ingest <repo> --db-path "@ + db_path
        + " --single-repo --full"@
}

/// Whether a store with the given sentinel may be opened: a missing
/// sentinel (fresh or legacy store) or the current version may; any other
/// version is refused with the recovery command.
pub fn check_schema_compat(on_disk: Option<u32>, db_path: &str) -> (r: Result<(), String>)
    ensures
        match on_disk {
            None => r is Ok,
            Some(v) => if v == SCHEMA_VERSION {
                r is Ok
            } else {
                r matches Err(m) && m@ == mismatch_message(v, db_path@)
            },
        },
{
    match on_disk {
        None => Ok(()),
        Some(v) => {
            if v == SCHEMA_VERSION {
                Ok(())
            } else {
                let mut msg = chars_of("schema v");
                extend(&mut msg, &decimal_of(v as usize));
                extend_str(&mut msg, " on disk at ");
                extend_str(&mut msg, db_path);
                extend_str(&mut msg, ", this binary expects v");
                extend(&mut msg, &decimal_of(SCHEMA_VERSION as usize));
                extend_str(&mut msg, ". Recover with: rm -rf ");
                extend_str(&mut msg, db_path);
                extend_str(&mut msg, " && code-raptor ingest <repo> --db-path ");
                extend_str(&mut msg, db_path);
                extend_str(&mut msg, " --single-repo --full");
                Err(string_of(&msg))
            }
        },
    }
}

/// The verdict on a store from its sidecar's contents (`None` when there is
/// no sidecar): no sidecar or the current version opens; unreadable text is
/// refused naming the sidecar and the parse error; another version is
/// refused with the recovery command.
pub open spec fn sidecar_verdict(contents: Option<Seq<char>>, sidecar_path: Seq<char>, db_path: Seq<char>) -> Result<(), Seq<char>> {
    match contents {
        None => Ok(()),
        Some(t) => match parse_u32_spec(trim(t)) {
            Err(e) => Err(sidecar_path + " is not a valid schema version: "@ + e.message_spec()),
            Ok(v) => if v == SCHEMA_VERSION {
                Ok(())
            } else {
                Err(mismatch_message(v, db_path))
            },
        },
    }
}

/// Check a store from the contents of its sidecar file at `sidecar_path`
/// (`None` when the file does not exist).
pub fn check_sidecar(contents: Option<&str>, sidecar_path: &str, db_path: &str) -> (r: Result<(), String>)
    ensures
        match r {
            Ok(()) => sidecar_verdict(crate::text::opt_str(contents), sidecar_path@, db_path@) == Ok::<(), Seq<char>>(()),
            Err(m) => sidecar_verdict(crate::text::opt_str(contents), sidecar_path@, db_path@) == Err::<(), Seq<char>>(m@),
        },
{
    match contents {
        None => Ok(()),
        Some(t) => match parse_schema_version(t) {
            Err(e) => {
                let mut msg = chars_of(sidecar_path);
                extend_str(&mut msg, " is not a valid schema version: ");
                let em = e.message();
                extend_str(&mut msg, em.as_str());
                Err(string_of(&msg))
            },
            Ok(v) => check_schema_compat(Some(v), db_path),
        },
    }
}

/// A store opens exactly when it has no sidecar or its sidecar holds the
/// current version (surrounding whitespace aside); a sidecar naming another
/// version is refused with the message naming both versions and the
/// `rm -rf` / `--full` recovery, and unreadable contents are refused too.
pub proof fn lemma_sidecar_opens_iff_current(contents: Option<Seq<char>>, sidecar_path: Seq<char>, db_path: Seq<char>)
    ensures
        (sidecar_verdict(contents, sidecar_path, db_path) is Ok) <==> (contents is None || parse_u32_spec(
            trim(contents->0),
        ) == Ok::<u32, NumberError>(SCHEMA_VERSION)),
        forall|v: u32|
            contents is Some && #[trigger] parse_u32_spec(trim(contents->0)) == Ok::<u32, NumberError>(v) && v
                != SCHEMA_VERSION ==> sidecar_verdict(contents, sidecar_path, db_path) == Err::<(), Seq<char>>(
                mismatch_message(v, db_path),
            ),
        contents is Some && parse_u32_spec(trim(contents->0)) is Err ==> sidecar_verdict(
            contents,
            sidecar_path,
            db_path,
        ) is Err,
{
}

} // verus!
