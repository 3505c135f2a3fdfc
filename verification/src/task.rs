//! The task record: the unit of persistence.

use vstd::prelude::*;

verus! {

/// Largest timestamp whose calendar date still has a four-digit year
/// (1970-01-01 .. 9999-12-31, in seconds since the epoch).  Keeping
/// timestamps below this bound keeps every derived date in the plain
/// `YYYY-MM-DD` shape.
pub const MAX_TIMESTAMP: u64 = 253402300799;

/// The calendar date (UTC, `YYYY-MM-DD`) of a timestamp in seconds since
/// the epoch.  The value is computed by the calendar library behind
/// `format_utc_date`; it depends on the seconds alone.
pub uninterp spec fn utc_date_of(secs: u64) -> Seq<char>;

/// Relies on `chrono::DateTime::<Utc>::from_timestamp` and the ISO 8601
/// `Display` of `chrono::NaiveDate`: the date depends on the seconds
/// alone, and `from_timestamp` is `Some` for every second up to the year
/// 9999.
#[verifier::external_body]
pub(crate) fn format_utc_date(secs: u64) -> (r: String)
    requires
        secs <= MAX_TIMESTAMP,
    ensures
        r@ == utc_date_of(secs),
{
    let dt = chrono::DateTime::from_timestamp(secs as i64, 0).expect("timestamp in range");
    dt.date_naive().to_string()
}

/// Relies on `rand::random::<u8>`: a byte from the thread-local
/// generator.  Nothing is promised of its value.
#[verifier::external_body]
fn random_byte() -> u8 {
    rand::random::<u8>()
}

/// Relies on `std::time::SystemTime::now` and its distance from the
/// UNIX epoch: the current clock reading in whole seconds; a clock
/// before the epoch reads as 0.  Nothing is promised of the value.
#[verifier::external_body]
fn clock_now_secs() -> u64 {
    match std::time::SystemTime::now().duration_since(std::time::UNIX_EPOCH) {
        Ok(d) => d.as_secs(),
        Err(_) => 0,
    }
}

/// The current clock reading in seconds since the epoch, capped at the
/// year 9999 so that a calendar date can always be derived from it.
pub fn now_secs() -> (r: u64)
    ensures
        r <= MAX_TIMESTAMP,
{
    let raw = clock_now_secs();
    if raw > MAX_TIMESTAMP {
        MAX_TIMESTAMP
    } else {
        raw
    }
}

/// The lowercase hex digit of a value below 16.
pub open spec fn hex_digit(n: u8) -> char {
    if n == 0 { '0' } else if n == 1 { '1' } else if n == 2 { '2' } else if n == 3 { '3' }
    else if n == 4 { '4' } else if n == 5 { '5' } else if n == 6 { '6' } else if n == 7 { '7' }
    else if n == 8 { '8' } else if n == 9 { '9' } else if n == 10 { 'a' } else if n == 11 { 'b' }
    else if n == 12 { 'c' } else if n == 13 { 'd' } else if n == 14 { 'e' } else { 'f' }
}

/// A byte in lowercase hex, without a leading zero: one digit below 16,
/// two digits from 16 on.
pub open spec fn hex_of_byte(b: u8) -> Seq<char> {
    if b < 16 {
        seq![hex_digit(b)]
    } else {
        seq![hex_digit(b / 16), hex_digit(b % 16)]
    }
}

pub open spec fn hex_of_bytes(bs: Seq<u8>) -> Seq<char>
    decreases bs.len(),
{
    if bs.len() == 0 {
        Seq::empty()
    } else {
        hex_of_bytes(bs.drop_last()) + hex_of_byte(bs.last())
    }
}

/// The id string formed from 32 bytes: their unpadded hex digits in
/// five dash-separated groups of 8, 4, 4, 4 and 12 bytes.
pub open spec fn uuid_chars(bs: Seq<u8>) -> Seq<char> {
    hex_of_bytes(bs.subrange(0, 8)) + seq!['-'] + hex_of_bytes(bs.subrange(8, 12)) + seq!['-']
        + hex_of_bytes(bs.subrange(12, 16)) + seq!['-'] + hex_of_bytes(bs.subrange(16, 20))
        + seq!['-'] + hex_of_bytes(bs.subrange(20, 32))
}

proof fn lemma_hex_of_bytes_push(bs: Seq<u8>, b: u8)
    ensures
        hex_of_bytes(bs.push(b)) == hex_of_bytes(bs) + hex_of_byte(b),
{
    assert(bs.push(b).drop_last() =~= bs);
    assert(bs.push(b).last() == b);
}

proof fn lemma_hex_of_bytes_len(bs: Seq<u8>)
    ensures
        bs.len() <= hex_of_bytes(bs).len() <= 2 * bs.len(),
    decreases bs.len(),
{
    if bs.len() > 0 {
        lemma_hex_of_bytes_len(bs.drop_last());
    }
}

fn hex_digit_char(n: u8) -> (c: char)
    requires
        n < 16,
    ensures
        c == hex_digit(n),
{
    match n {
        0 => '0',
        1 => '1',
        2 => '2',
        3 => '3',
        4 => '4',
        5 => '5',
        6 => '6',
        7 => '7',
        8 => '8',
        9 => '9',
        10 => 'a',
        11 => 'b',
        12 => 'c',
        13 => 'd',
        14 => 'e',
        _ => 'f',
    }
}

/// Appends the unpadded hex digits of `bytes[from..to]` to `s`.
fn push_hex_range(s: &mut String, bytes: &Vec<u8>, from: usize, to: usize)
    requires
        from <= to <= bytes@.len(),
    ensures
        final(s)@ == old(s)@ + hex_of_bytes(bytes@.subrange(from as int, to as int)),
{
    proof {
        assert(bytes@.subrange(from as int, from as int) =~= Seq::<u8>::empty());
    }
    let mut i: usize = from;
    while i < to
        invariant
            from <= i <= to <= bytes@.len(),
            s@ == old(s)@ + hex_of_bytes(bytes@.subrange(from as int, i as int)),
        decreases to - i,
    {
        let b = bytes[i];
        if b < 16 {
            s.push(hex_digit_char(b));
        } else {
            s.push(hex_digit_char(b / 16));
            s.push(hex_digit_char(b % 16));
        }
        proof {
            assert(bytes@.subrange(from as int, i + 1) =~= bytes@.subrange(
                from as int,
                i as int,
            ).push(bytes@[i as int]));
            lemma_hex_of_bytes_push(bytes@.subrange(from as int, i as int), bytes@[i as int]);
        }
        i = i + 1;
    }
}

/// The id string of the given 32 bytes.
fn uuid_from_bytes(bytes: &Vec<u8>) -> (s: String)
    requires
        bytes@.len() == 32,
    ensures
        s@ == uuid_chars(bytes@),
{
    let mut s = String::new();
    push_hex_range(&mut s, bytes, 0, 8);
    s.push('-');
    push_hex_range(&mut s, bytes, 8, 12);
    s.push('-');
    push_hex_range(&mut s, bytes, 12, 16);
    s.push('-');
    push_hex_range(&mut s, bytes, 16, 20);
    s.push('-');
    push_hex_range(&mut s, bytes, 20, 32);
    proof {
        assert(s@ =~= uuid_chars(bytes@));
    }
    s
}

/// A freshly generated id: 32 random bytes rendered as five
/// dash-separated groups of unpadded hex digits.  The result is never
/// empty; distinctness rests on the randomness and is not promised.
pub fn generate_uuid() -> (r: String)
    ensures
        exists|bs: Seq<u8>| bs.len() == 32 && r@ == uuid_chars(bs),
        36 <= r@.len() <= 68,
{
    let mut bytes: Vec<u8> = Vec::new();
    let mut i: usize = 0;
    while i < 32
        invariant
            bytes@.len() == i,
            i <= 32,
        decreases 32 - i,
    {
        bytes.push(random_byte());
        i = i + 1;
    }
    let s = uuid_from_bytes(&bytes);
    proof {
        lemma_hex_of_bytes_len(bytes@.subrange(0, 8));
        lemma_hex_of_bytes_len(bytes@.subrange(8, 12));
        lemma_hex_of_bytes_len(bytes@.subrange(12, 16));
        lemma_hex_of_bytes_len(bytes@.subrange(16, 20));
        lemma_hex_of_bytes_len(bytes@.subrange(20, 32));
    }
    s
}

/// One task record.
pub struct Task {
    pub id: String,
    pub description: String,
    pub completed: bool,
    pub created_at: u64,
    pub created_at_date: String,
    pub completed_at: u64,
}

/// The mathematical value of a task record.
pub ghost struct TaskView {
    pub id: Seq<char>,
    pub description: Seq<char>,
    pub completed: bool,
    pub created_at: u64,
    pub created_at_date: Seq<char>,
    pub completed_at: u64,
}

impl View for Task {
    type V = TaskView;

    open spec fn view(&self) -> TaskView {
        TaskView {
            id: self.id@,
            description: self.description@,
            completed: self.completed,
            created_at: self.created_at,
            created_at_date: self.created_at_date@,
            completed_at: self.completed_at,
        }
    }
}

impl TaskView {
    /// The completion flag and the completion timestamp agree: `0` is the
    /// sentinel for "not completed", and only for it.
    pub open spec fn completion_consistent(self) -> bool {
        self.completed == false <==> self.completed_at == 0
    }

    /// The stored date is the cached calendar date of `created_at`.
    pub open spec fn date_consistent(self) -> bool {
        &&& self.created_at <= MAX_TIMESTAMP
        &&& self.created_at_date == utc_date_of(self.created_at)
    }

    pub open spec fn wf(self) -> bool {
        self.completion_consistent() && self.date_consistent()
    }

    /// The record after the completion flag is toggled at time `now`.
    pub open spec fn with_completion(self, completed: bool, now: u64) -> TaskView {
        TaskView {
            completed,
            completed_at: if completed {
                now
            } else {
                0
            },
            ..self
        }
    }
}

impl Clone for Task {
    fn clone(&self) -> (r: Task)
        ensures
            r == *self,
    {
        Task {
            id: self.id.clone(),
            description: self.description.clone(),
            completed: self.completed,
            created_at: self.created_at,
            created_at_date: self.created_at_date.clone(),
            completed_at: self.completed_at,
        }
    }
}

impl Task {
    /// A new, not yet completed record for the given description,
    /// stamped with the current clock and a freshly generated id.
    pub fn new(description: String) -> (r: Task)
        ensures
            r@.description == description@,
            r@.completed == false,
            r@.completed_at == 0,
            r@.wf(),
            r@.id.len() >= 36,
    {
        let created_at = now_secs();
        let created_at_date = format_utc_date(created_at);
        Task {
            id: generate_uuid(),
            description,
            completed: false,
            created_at,
            created_at_date,
            completed_at: 0,
        }
    }

    /// Whether the record was created on the given calendar date.
    pub fn is_on_date(&self, date: &str) -> (r: bool)
        requires
            self.created_at <= MAX_TIMESTAMP,
        ensures
            r == (utc_date_of(self.created_at) == date@),
    {
        let own = format_utc_date(self.created_at);
        own == date.to_owned()
    }

    /// Whether the record was created on the current calendar day.  The
    /// clock decides which day that is, so the contract only ties the
    /// answer to some reading of it.
    pub fn is_today(&self) -> (r: bool)
        requires
            self.created_at <= MAX_TIMESTAMP,
        ensures
            exists|now: u64|
                now <= MAX_TIMESTAMP && r == (utc_date_of(self.created_at) == #[trigger] utc_date_of(now)),
    {
        let now = now_secs();
        let today = format_utc_date(now);
        let r = self.is_on_date(today.as_str());
        proof {
            assert(now <= MAX_TIMESTAMP && r == (utc_date_of(self.created_at) == utc_date_of(
                now,
            )));
        }
        r
    }

    /// Builds a record from explicit parts; the cached date is derived
    /// from `created_at`, never taken from the caller.
    pub fn from_parts(id: String, description: String, completed: bool, created_at: u64, completed_at: u64) -> (r: Task)
        requires
            created_at <= MAX_TIMESTAMP,
        ensures
            r@ == (TaskView {
                id: id@,
                description: description@,
                completed,
                created_at,
                created_at_date: utc_date_of(created_at),
                completed_at,
            }),
            r@.date_consistent(),
    {
        let created_at_date = format_utc_date(created_at);
        Task { id, description, completed, created_at, created_at_date, completed_at }
    }

    /// Recomputes the calendar date of `created_at`.
    pub fn created_at_date(&self) -> (r: String)
        requires
            self.created_at <= MAX_TIMESTAMP,
        ensures
            r@ == utc_date_of(self.created_at),
    {
        format_utc_date(self.created_at)
    }

    /// Sets the completion flag; completing stamps the current time,
    /// un-completing resets the stamp to the sentinel `0`.
    pub fn set_completed(&mut self, completed: bool, now: u64)
        requires
            now >= 1,
        ensures
            final(self)@ == old(self)@.with_completion(completed, now),
            final(self)@.completion_consistent(),
            old(self)@.date_consistent() ==> final(self)@.date_consistent(),
    {
        self.completed = completed;
        self.completed_at = if completed {
            now
        } else {
            0
        };
    }
}

/// Toggling a record complete and then incomplete restores the
/// completion timestamp to the sentinel `0`, whatever the record held
/// before and whenever the two toggles happen.
pub proof fn lemma_toggle_restores_sentinel(t: TaskView, now1: u64, now2: u64)
    ensures
        t.with_completion(true, now1).with_completion(false, now2).completed_at == 0,
        t.with_completion(true, now1).with_completion(false, now2).completed == false,
        t.with_completion(true, now1).with_completion(false, now2).completion_consistent(),
{
}

/// Toggling preserves every field but the completion pair.
pub proof fn lemma_toggle_keeps_identity(t: TaskView, completed: bool, now: u64)
    ensures
        t.with_completion(completed, now).id == t.id,
        t.with_completion(completed, now).description == t.description,
        t.with_completion(completed, now).created_at == t.created_at,
        t.with_completion(completed, now).created_at_date == t.created_at_date,
{
}

} // verus!
