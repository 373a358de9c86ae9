//! Pages of stored plans and activity, and the cursors between them.

use crate::plan::ContinuousPlanning;
use crate::plan::PlanView;
use crate::protocol::ThreadPlanHistoryListResponse;
use crate::text::decimal;
use crate::text::digit;
use crate::text::optional_text;
use crate::text::signed_decimal;
use crate::text::signed_decimal_text;
use crate::text::to_chars;
use vstd::prelude::*;

verus! {

/// Why a cursor is refused.
#[derive(Clone, Copy, Debug, PartialEq, Eq, Structural)]
pub enum CursorError {
    Empty,
    InvalidDigit,
    TooLarge,
    TooSmall,
    /// A number that no plan can have.
    PlanCursor,
    /// A number that no activity can have.
    ActivityCursor,
}

impl CursorError {
    pub open spec fn text(self) -> Seq<char> {
        match self {
            CursorError::Empty => "cannot parse integer from empty string"@,
            CursorError::InvalidDigit => "invalid digit found in string"@,
            CursorError::TooLarge => "number too large to fit in target type"@,
            CursorError::TooSmall => "number too small to fit in target type"@,
            CursorError::PlanCursor => "invalid plan cursor"@,
            CursorError::ActivityCursor => "invalid cursor"@,
        }
    }

    pub fn message(self) -> (text: &'static str)
        ensures
            text@ == self.text(),
    {
        match self {
            CursorError::Empty => "cannot parse integer from empty string",
            CursorError::InvalidDigit => "invalid digit found in string",
            CursorError::TooLarge => "number too large to fit in target type",
            CursorError::TooSmall => "number too small to fit in target type",
            CursorError::PlanCursor => "invalid plan cursor",
            CursorError::ActivityCursor => "invalid cursor",
        }
    }
}

/// The value of a decimal digit.
pub open spec fn digit_value(c: char) -> Option<int> {
    let u = c as u32;
    if 48 <= u <= 57 {
        Some(u - 48)
    } else {
        None
    }
}

/// The number that some digits make up with the sign they follow, read from the left. The first
/// character that is no digit, or that takes the number out of range, decides the error.
pub open spec fn digits_value(digits: Seq<char>, negative: bool) -> Result<int, CursorError>
    decreases digits.len(),
{
    if digits.len() == 0 {
        Ok(0)
    } else {
        match digits_value(digits.drop_last(), negative) {
            Err(error) => Err(error),
            Ok(before) => match digit_value(digits.last()) {
                None => Err(CursorError::InvalidDigit),
                Some(d) => {
                    let value = if negative {
                        before * 10 - d
                    } else {
                        before * 10 + d
                    };
                    if value > i64::MAX {
                        Err(CursorError::TooLarge)
                    } else if value < i64::MIN {
                        Err(CursorError::TooSmall)
                    } else {
                        Ok(value)
                    }
                },
            },
        }
    }
}

/// The number that a text holds: an optional sign and at least one digit.
pub open spec fn integer_value(s: Seq<char>) -> Result<int, CursorError> {
    if s.len() == 0 {
        Err(CursorError::Empty)
    } else if s.len() == 1 && (s[0] == '-' || s[0] == '+') {
        Err(CursorError::InvalidDigit)
    } else if s[0] == '-' {
        digits_value(s.drop_first(), true)
    } else if s[0] == '+' {
        digits_value(s.drop_first(), false)
    } else {
        digits_value(s, false)
    }
}

fn parse_digits(chars: &Vec<char>, from: usize, negative: bool) -> (result: Result<
    i64,
    CursorError,
>)
    requires
        from <= chars@.len(),
    ensures
        (match result {
            Ok(value) => Ok::<int, CursorError>(value as int),
            Err(error) => Err(error),
        }) == digits_value(chars@.skip(from as int), negative),
{
    let ghost digits = chars@.skip(from as int);
    let mut value: i64 = 0;
    let mut i: usize = from;
    assert(digits.take(0) =~= Seq::empty());
    while i < chars.len()
        invariant
            from <= i <= chars@.len(),
            digits == chars@.skip(from as int),
            digits_value(digits.take(i - from), negative) == Ok::<int, CursorError>(value as int),
            negative ==> value <= 0,
            !negative ==> value >= 0,
        decreases chars.len() - i,
    {
        let ghost seen = digits.take(i - from + 1);
        assert(seen.drop_last() =~= digits.take(i - from));
        assert(seen.last() == chars@[i as int]);
        let c = chars[i];
        let u: u32 = c as u32;
        if u < 48 || u > 57 {
            proof {
                lemma_digits_error_stays(digits, negative, i - from + 1);
            }
            return Err(CursorError::InvalidDigit);
        }
        let d: i128 = (u - 48) as i128;
        assert(digit_value(c) == Some(d as int));
        let next: i128 = if negative {
            (value as i128) * 10 - d
        } else {
            (value as i128) * 10 + d
        };
        if next > i64::MAX as i128 {
            proof {
                lemma_digits_error_stays(digits, negative, i - from + 1);
            }
            return Err(CursorError::TooLarge);
        }
        if next < i64::MIN as i128 {
            proof {
                lemma_digits_error_stays(digits, negative, i - from + 1);
            }
            return Err(CursorError::TooSmall);
        }
        value = next as i64;
        i += 1;
    }
    assert(digits.take(i - from) =~= digits);
    Ok(value)
}

proof fn lemma_digits_error_stays(digits: Seq<char>, negative: bool, count: int)
    requires
        0 <= count <= digits.len(),
        digits_value(digits.take(count), negative) is Err,
    ensures
        digits_value(digits, negative) == digits_value(digits.take(count), negative),
    decreases digits.len() - count,
{
    if count < digits.len() {
        assert(digits.take(count + 1).drop_last() =~= digits.take(count));
        lemma_digits_error_stays(digits, negative, count + 1);
    } else {
        assert(digits.take(count) =~= digits);
    }
}

/// Reads a cursor as a number.
pub fn parse_cursor(text: &str) -> (result: Result<i64, CursorError>)
    ensures
        (match result {
            Ok(value) => Ok::<int, CursorError>(value as int),
            Err(error) => Err(error),
        }) == integer_value(text@),
{
    let chars = to_chars(text);
    if chars.len() == 0 {
        return Err(CursorError::Empty);
    }
    let first = chars[0];
    assert(chars@.skip(1) =~= chars@.drop_first());
    assert(chars@.skip(0) =~= chars@);
    if first == '-' || first == '+' {
        if chars.len() == 1 {
            return Err(CursorError::InvalidDigit);
        }
        parse_digits(&chars, 1, first == '-')
    } else {
        parse_digits(&chars, 0, false)
    }
}

proof fn lemma_decimal_digits(n: nat, negative: bool)
    requires
        negative ==> -(n as int) >= i64::MIN,
        !negative ==> n <= i64::MAX,
    ensures
        digits_value(decimal(n), negative) == Ok::<int, CursorError>(
            if negative {
                -(n as int)
            } else {
                n as int
            },
        ),
        decimal(n).len() > 0,
        digit_value(decimal(n)[0]) is Some,
    decreases n,
{
    let s = decimal(n);
    if n < 10 {
        let c = digit(n as int);
        assert(s.drop_last() =~= Seq::<char>::empty());
        assert(digit_value(c) == Some(n as int));
        reveal_with_fuel(digits_value, 2);
    } else {
        lemma_decimal_digits(n / 10, negative);
        let d = (n % 10) as int;
        assert(s.drop_last() =~= decimal(n / 10));
        assert(s.last() == digit(d));
        assert(digit_value(digit(d)) == Some(d));
        assert(s[0] == decimal(n / 10)[0]);
    }
}

/// A cursor reads back as the number it was written from.
pub proof fn law_cursors_read_back(n: i64)
    ensures
        integer_value(signed_decimal(n as int)) == Ok::<int, CursorError>(n as int),
{
    if n < 0 {
        let magnitude = (-n) as nat;
        lemma_decimal_digits(magnitude, true);
        let s = signed_decimal(n as int);
        assert(s.drop_first() =~= decimal(magnitude));
        assert(s[0] == '-');
    } else {
        lemma_decimal_digits(n as nat, false);
    }
}

/// Which stored entries a page is made of: those beyond a number, and one more than the page
/// holds, to see whether there are more.
#[derive(Clone, Copy, Debug, PartialEq, Eq, Structural)]
pub struct PageQuery {
    pub cursor: i64,
    pub limit: u32,
}

pub open spec fn page_limit(limit: Option<u32>, default: u32) -> u32 {
    let asked = match limit {
        Some(limit) => limit,
        None => default,
    };
    if asked < 1 {
        1
    } else if asked > 99 {
        99
    } else {
        asked
    }
}

fn bounded_limit(limit: Option<u32>, default: u32) -> (bounded: u32)
    ensures
        bounded == page_limit(limit, default),
        1 <= bounded <= 99,
{
    let asked: u32 = match limit {
        Some(limit) => limit,
        None => default,
    };
    if asked < 1 {
        1
    } else if asked > 99 {
        99
    } else {
        asked
    }
}

/// The query of a page, by the cursor where there is one.
pub open spec fn page_query(
    cursor: Option<Seq<char>>,
    limit: Option<u32>,
    start: int,
    default: u32,
    least: int,
    error: CursorError,
) -> Result<PageQuery, CursorError> {
    let number = match cursor {
        Some(cursor) => integer_value(cursor),
        None => Ok(start),
    };
    match number {
        Err(fault) => Err(fault),
        Ok(number) => if number < least {
            Err(error)
        } else {
            Ok(PageQuery { cursor: number as i64, limit: page_limit(limit, default) })
        },
    }
}

/// The plans before a version, the newest first.
pub fn plan_history_query(cursor: &Option<String>, limit: Option<u32>) -> (result: Result<
    PageQuery,
    CursorError,
>)
    ensures
        result == page_query(
            optional_text(*cursor),
            limit,
            i64::MAX as int,
            20,
            1,
            CursorError::PlanCursor,
        ),
        result matches Ok(query) ==> 1 <= query.limit <= 99,
{
    let before: i64 = match cursor {
        Some(text) => match parse_cursor(text.as_str()) {
            Ok(number) => number,
            Err(error) => {
                return Err(error);
            },
        },
        None => i64::MAX,
    };
    if before <= 0 {
        return Err(CursorError::PlanCursor);
    }
    Ok(PageQuery { cursor: before, limit: bounded_limit(limit, 20) })
}

/// The activity after a sequence number, the oldest first.
pub fn activity_history_query(cursor: &Option<String>, limit: Option<u32>) -> (result: Result<
    PageQuery,
    CursorError,
>)
    ensures
        result == page_query(
            optional_text(*cursor),
            limit,
            0,
            50,
            0,
            CursorError::ActivityCursor,
        ),
        result matches Ok(query) ==> 1 <= query.limit <= 99,
{
    let after: i64 = match cursor {
        Some(text) => match parse_cursor(text.as_str()) {
            Ok(number) => number,
            Err(error) => {
                return Err(error);
            },
        },
        None => 0,
    };
    if after < 0 {
        return Err(CursorError::ActivityCursor);
    }
    Ok(PageQuery { cursor: after, limit: bounded_limit(limit, 50) })
}

/// The page of the plans that a query found. A page that leaves some out names the last one it
/// holds as the next cursor.
pub fn plan_history_page(data: Vec<ContinuousPlanning>, limit: u32) -> (page:
    ThreadPlanHistoryListResponse)
    requires
        limit >= 1,
    ensures
        data@.len() <= limit ==> page.data@ == data@ && page.next_cursor is None,
        data@.len() > limit ==> page.data@ == data@.take(limit as int) && optional_text(
            page.next_cursor,
        ) == Some(signed_decimal(data@[limit - 1].version as int)),
{
    let mut data = data;
    let more = data.len() > limit as usize;
    if more {
        data.truncate(limit as usize);
        let last: usize = data.len() - 1;
        let next_cursor = Some(signed_decimal_text(data[last].version));
        ThreadPlanHistoryListResponse { data, next_cursor }
    } else {
        ThreadPlanHistoryListResponse { data, next_cursor: None }
    }
}

/// A page of stored activity, each with its sequence number.
#[derive(Debug, PartialEq, Eq)]
pub struct ActivityPage {
    pub rows: Vec<(i64, String)>,
    pub next_cursor: Option<String>,
}

/// The page of the activity that a query found.
pub fn activity_history_page(rows: Vec<(i64, String)>, limit: u32) -> (page: ActivityPage)
    requires
        limit >= 1,
    ensures
        rows@.len() <= limit ==> page.rows@ == rows@ && page.next_cursor is None,
        rows@.len() > limit ==> page.rows@ == rows@.take(limit as int) && optional_text(
            page.next_cursor,
        ) == Some(signed_decimal(rows@[limit - 1].0 as int)),
{
    let mut rows = rows;
    let more = rows.len() > limit as usize;
    if more {
        rows.truncate(limit as usize);
        let last: usize = rows.len() - 1;
        let next_cursor = Some(signed_decimal_text(rows[last].0));
        ActivityPage { rows, next_cursor }
    } else {
        ActivityPage { rows, next_cursor: None }
    }
}

/// Why something is not stored.
#[derive(Clone, Copy, Debug, PartialEq, Eq, Structural)]
pub enum StorageError {
    PlanTooLarge,
    StalePlan,
    ActivityTooLarge,
    DeliveryTooLarge,
}

impl StorageError {
    pub open spec fn text(self) -> Seq<char> {
        match self {
            StorageError::PlanTooLarge => "plan exceeds storage limit"@,
            StorageError::StalePlan => "stale plan version; read the current plan before retrying"@,
            StorageError::ActivityTooLarge => "supervisor activity exceeds storage limit"@,
            StorageError::DeliveryTooLarge => "message delivery snapshot exceeds limit"@,
        }
    }

    pub fn message(self) -> (text: &'static str)
        ensures
            text@ == self.text(),
    {
        match self {
            StorageError::PlanTooLarge => "plan exceeds storage limit",
            StorageError::StalePlan => "stale plan version; read the current plan before retrying",
            StorageError::ActivityTooLarge => "supervisor activity exceeds storage limit",
            StorageError::DeliveryTooLarge => "message delivery snapshot exceeds limit",
        }
    }
}

/// The largest stored plan, activity and delivery, in bytes.
pub const MAX_PLAN_BYTES: usize = 131_072;

pub const MAX_ACTIVITY_BYTES: usize = 1_048_576;

pub const MAX_DELIVERY_BYTES: usize = 65_536;

pub fn check_plan_size(bytes: usize) -> (result: Result<(), StorageError>)
    ensures
        result == (if bytes <= MAX_PLAN_BYTES {
            Ok::<(), StorageError>(())
        } else {
            Err(StorageError::PlanTooLarge)
        }),
{
    if bytes <= MAX_PLAN_BYTES {
        Ok(())
    } else {
        Err(StorageError::PlanTooLarge)
    }
}

pub fn check_activity_size(bytes: usize) -> (result: Result<(), StorageError>)
    ensures
        result == (if bytes <= MAX_ACTIVITY_BYTES {
            Ok::<(), StorageError>(())
        } else {
            Err(StorageError::ActivityTooLarge)
        }),
{
    if bytes <= MAX_ACTIVITY_BYTES {
        Ok(())
    } else {
        Err(StorageError::ActivityTooLarge)
    }
}

pub fn check_delivery_size(bytes: usize) -> (result: Result<(), StorageError>)
    ensures
        result == (if bytes <= MAX_DELIVERY_BYTES {
            Ok::<(), StorageError>(())
        } else {
            Err(StorageError::DeliveryTooLarge)
        }),
{
    if bytes <= MAX_DELIVERY_BYTES {
        Ok(())
    } else {
        Err(StorageError::DeliveryTooLarge)
    }
}

/// Whether an insertion that only takes the next version took this one.
pub fn check_appended(rows: u64) -> (result: Result<(), StorageError>)
    ensures
        result == (if rows == 1 {
            Ok::<(), StorageError>(())
        } else {
            Err(StorageError::StalePlan)
        }),
{
    if rows == 1 {
        Ok(())
    } else {
        Err(StorageError::StalePlan)
    }
}

/// How many rows a query may return.
pub fn row_limit(limit: u32) -> (bounded: u32)
    ensures
        bounded == (if limit < 1 {
            1
        } else if limit > 100 {
            100
        } else {
            limit
        }),
{
    if limit < 1 {
        1
    } else if limit > 100 {
        100
    } else {
        limit
    }
}

/// A stored plan with its recovery clock.
pub fn recovered_plan(plan: ContinuousPlanning, checkpoint: i64) -> (recovered: ContinuousPlanning)
    ensures
        recovered@ == (PlanView {
            updated_at: crate::plan::larger(plan@.updated_at, checkpoint as int),
            ..plan@
        }),
{
    let mut plan = plan;
    plan.updated_at = crate::plan::larger_of(plan.updated_at, checkpoint);
    plan
}

} // verus!
