use vstd::prelude::*;

verus! {

/// The choices of the numbered text menu.
#[derive(Clone, Copy, Debug, PartialEq, Eq, Structural)]
pub enum MenuOptions {
    ADD,
    SEARCH,
    LOAD,
    SAVE,
    QUIT,
}

/// Given for a number outside 1 to 5.
pub const INVALID_OPTION: &'static str = "Invalid option, please enter a number between 1 and 5.";

/// Given for text that is not a number.
pub const INVALID_INPUT: &'static str = "Invalid input, please enter a valid number";

/// The text with leading and trailing whitespace removed.
pub uninterp spec fn trimmed(s: Seq<char>) -> Seq<char>;

/// Relies on str::trim: leading and trailing whitespace removed, which
/// depends on the text alone.
#[verifier::external_body]
fn trim_text(s: &str) -> (r: &str)
    ensures
        r@ == trimmed(s@),
{
    s.trim()
}

/// An ASCII decimal digit.
pub open spec fn is_digit(c: char) -> bool {
    '0' <= c <= '9'
}

/// A non-empty run of ASCII digits.
pub open spec fn all_digits(s: Seq<char>) -> bool {
    s.len() > 0 && forall|i: int| 0 <= i < s.len() ==> is_digit(#[trigger] s[i])
}

/// The value of a run of ASCII digits.
pub open spec fn digits_value(s: Seq<char>) -> nat
    decreases s.len(),
{
    if s.len() == 0 {
        0
    } else {
        digits_value(s.drop_last()) * 10 + ((s.last() as nat) - ('0' as nat)) as nat
    }
}

/// The `i32` that the text denotes: an optional `+` or `-` and then decimal
/// digits, whose value lies in the range of `i32`; `None` for any other text.
pub open spec fn parsed_i32(s: Seq<char>) -> Option<int> {
    if s.len() > 0 && s[0] == '-' {
        if all_digits(s.drop_first()) && digits_value(s.drop_first()) <= 2147483648 {
            Some(-(digits_value(s.drop_first()) as int))
        } else {
            None
        }
    } else {
        let body = if s.len() > 0 && s[0] == '+' { s.drop_first() } else { s };
        if all_digits(body) && digits_value(body) <= 2147483647 {
            Some(digits_value(body) as int)
        } else {
            None
        }
    }
}

/// The menu choice numbered `n`, if any.
pub open spec fn option_numbered(n: int) -> Option<MenuOptions> {
    if n == 1 {
        Some(MenuOptions::ADD)
    } else if n == 2 {
        Some(MenuOptions::SEARCH)
    } else if n == 3 {
        Some(MenuOptions::LOAD)
    } else if n == 4 {
        Some(MenuOptions::SAVE)
    } else if n == 5 {
        Some(MenuOptions::QUIT)
    } else {
        None
    }
}

/// What the menu makes of the (already trimmed) text `s`.
pub open spec fn menu_choice(s: Seq<char>) -> Result<MenuOptions, Seq<char>> {
    match parsed_i32(s) {
        None => Err(INVALID_INPUT@),
        Some(n) => match option_numbered(n) {
            Some(o) => Ok(o),
            None => Err(INVALID_OPTION@),
        },
    }
}

/// The error text as a sequence of characters.
pub open spec fn choice_view(r: Result<MenuOptions, &str>) -> Result<MenuOptions, Seq<char>> {
    match r {
        Ok(o) => Ok(o),
        Err(m) => Err(m@),
    }
}

/// The magnitude of the digits of `s` from `start` on, or `None` when one
/// is not a digit, there are none, or the value exceeds `limit`.
fn digits_up_to(s: &str, start: usize, len: usize, limit: u64) -> (r: Option<u64>)
    requires
        len == s@.len(),
        start <= len,
        limit <= 2147483648,
    ensures
        r is Some <==> (all_digits(s@.subrange(start as int, len as int)) && digits_value(
            s@.subrange(start as int, len as int),
        ) <= limit),
        r is Some ==> r->0 == digits_value(s@.subrange(start as int, len as int)),
{
    if start == len {
        return None;
    }
    let ghost body = s@.subrange(start as int, len as int);
    // `acc` is the value so far, capped at `limit + 1`.
    let mut acc: u64 = 0;
    let mut i: usize = start;
    while i < len
        invariant
            start <= i <= len,
            len == s@.len(),
            limit <= 2147483648,
            body == s@.subrange(start as int, len as int),
            forall|k: int| start <= k < i ==> is_digit(#[trigger] s@[k]),
            acc as nat == if digits_value(s@.subrange(start as int, i as int)) <= limit {
                digits_value(s@.subrange(start as int, i as int))
            } else {
                (limit + 1) as nat
            },
        decreases len - i,
    {
        let c = s.get_char(i);
        if !('0' <= c && c <= '9') {
            assert(!is_digit(body[i - start]));
            return None;
        }
        let ghost before = s@.subrange(start as int, i as int);
        let ghost after = s@.subrange(start as int, i + 1);
        assert(after.drop_last() =~= before);
        let d = (c as u32 - '0' as u32) as u64;
        assert(digits_value(after) == digits_value(before) * 10 + d);
        let next = acc * 10 + d;
        if next > limit {
            acc = limit + 1;
            assert(digits_value(after) > limit) by (nonlinear_arith)
                requires
                    digits_value(after) == digits_value(before) * 10 + d,
                    acc as nat == (limit + 1) as nat,
                    next == (if digits_value(before) <= limit { digits_value(before) } else { (limit + 1) as nat }) * 10 + d,
                    next > limit,
            ;
        } else {
            acc = next;
        }
        i = i + 1;
    }
    assert(s@.subrange(start as int, i as int) =~= body);
    if acc > limit {
        None
    } else {
        Some(acc)
    }
}

/// The `i32` that the text denotes, as `str::parse` reads it: an optional
/// sign and then decimal digits, within the range of `i32`.
pub fn parse_i32(s: &str) -> (r: Option<i32>)
    ensures
        parsed_i32(s@) == (match r {
            Some(v) => Some(v as int),
            None => None::<int>,
        }),
{
    let len = s.unicode_len();
    if len > 0 && s.get_char(0) == '-' {
        assert(s@.drop_first() =~= s@.subrange(1, len as int));
        match digits_up_to(s, 1, len, 2147483648) {
            Some(v) => Some((0 - v as i64) as i32),
            None => None,
        }
    } else if len > 0 && s.get_char(0) == '+' {
        assert(s@.drop_first() =~= s@.subrange(1, len as int));
        match digits_up_to(s, 1, len, 2147483647) {
            Some(v) => Some(v as i32),
            None => None,
        }
    } else {
        assert(s@ =~= s@.subrange(0, len as int));
        match digits_up_to(s, 0, len, 2147483647) {
            Some(v) => Some(v as i32),
            None => None,
        }
    }
}

/// The menu choice that trimmed text `text` selects, or the message that
/// explains why it selects none.
pub fn parse_menu_choice(text: &str) -> (r: Result<MenuOptions, &'static str>)
    ensures
        choice_view(r) == menu_choice(text@),
{
    match parse_i32(text) {
        None => Err(INVALID_INPUT),
        Some(1) => Ok(MenuOptions::ADD),
        Some(2) => Ok(MenuOptions::SEARCH),
        Some(3) => Ok(MenuOptions::LOAD),
        Some(4) => Ok(MenuOptions::SAVE),
        Some(5) => Ok(MenuOptions::QUIT),
        Some(_) => Err(INVALID_OPTION),
    }
}

/// The menu choice that a line of input selects, surrounding whitespace
/// ignored, or the message that explains why it selects none.
pub fn parse_menu_input(input: &str) -> (r: Result<MenuOptions, &'static str>)
    ensures
        choice_view(r) == menu_choice(trimmed(input@)),
{
    parse_menu_choice(trim_text(input))
}

} // verus!
