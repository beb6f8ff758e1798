//! What the alarm receiver writes to its database for an event: the monthly
//! report table, the statements that record the event and update the
//! subscriber, and the description of an event code.

use crate::text::{digit_char, has_prefix, push_signed_decimal, push_decimal, push_str, signed_decimal, decimal, starts_with, str_eq};
use chrono::NaiveDate;
use vstd::prelude::*;

verus! {

/// Earliest year a `chrono::NaiveDate` holds.
pub const MIN_YEAR: i32 = -262143;

/// Latest year a `chrono::NaiveDate` holds.
pub const MAX_YEAR: i32 = 262142;

/// Leap years of the proleptic Gregorian calendar.
pub open spec fn is_leap_year(y: int) -> bool {
    (y % 4 == 0 && y % 100 != 0) || y % 400 == 0
}

/// Days in month `m` (1 to 12) of year `y`.
pub open spec fn days_in_month(y: int, m: int) -> int {
    if m == 2 {
        if is_leap_year(y) {
            29
        } else {
            28
        }
    } else if m == 4 || m == 6 || m == 9 || m == 11 {
        30
    } else {
        31
    }
}

/// Nanoseconds in a second.
pub const NANOS_PER_SEC: u32 = 1_000_000_000;

/// A date and time of day that `chrono` can represent (`NaiveDate::from_ymd_opt`
/// and `and_hms_nano_opt` succeed): a year in range, a month, a day of that
/// month, and a time of day whose nanoseconds reach into a second second
/// only at second 59 (a leap second, as chrono represents it).
pub open spec fn valid_date_time(
    year: i32,
    month: u32,
    day: u32,
    hour: u32,
    minute: u32,
    second: u32,
    nanosecond: u32,
) -> bool {
    &&& MIN_YEAR <= year <= MAX_YEAR
    &&& 1 <= month <= 12
    &&& 1 <= day <= days_in_month(year as int, month as int)
    &&& hour < 24
    &&& minute < 60
    &&& second < 60
    &&& nanosecond < 2 * NANOS_PER_SEC
    &&& nanosecond >= NANOS_PER_SEC ==> second == 59
}

/// The second chrono writes for `%S`: 60 during a leap second.
pub open spec fn shown_second(second: u32, nanosecond: u32) -> nat {
    (second + nanosecond / NANOS_PER_SEC) as nat
}

/// Format of a timestamp in a MySQL `datetime` column.
pub const MYSQL_DATETIME_FORMAT: &'static str = "%Y-%m-%d %H:%M:%S";

/// Format of the seconds of a timestamp.
pub const SECONDS_FORMAT: &'static str = "%S";

/// Decimal notation of `n`, with zeros before it up to `width` digits.
pub open spec fn zero_padded(n: nat, width: nat) -> Seq<char> {
    let d = decimal(n);
    if d.len() >= width {
        d
    } else {
        Seq::new((width - d.len()) as nat, |_i: int| '0') + d
    }
}

/// Two decimal digits of a number below 100, the first one a zero where
/// it is below ten.
pub open spec fn two_digits(v: nat) -> Seq<char> {
    seq![digit_char((v / 10) as int), digit_char((v % 10) as int)]
}

/// A year as chrono's `%Y` writes it: four digits at least, zero-padded,
/// and for a year outside 0 to 9999 a sign before them.
pub open spec fn year_field(y: int) -> Seq<char> {
    if 0 <= y <= 9999 {
        zero_padded(y as nat, 4)
    } else if y < 0 {
        seq!['-'] + zero_padded((-y) as nat, 4)
    } else {
        seq!['+'] + zero_padded(y as nat, 4)
    }
}

/// A date and time in the form `%Y-%m-%d %H:%M:%S`.
pub open spec fn datetime_text(year: int, month: nat, day: nat, hour: nat, minute: nat, second: nat) -> Seq<char> {
    year_field(year) + "-"@ + two_digits(month) + "-"@ + two_digits(day) + " "@ + two_digits(hour) + ":"@
        + two_digits(minute) + ":"@ + two_digits(second)
}

/// Formats a date and time with `chrono` (`NaiveDate::from_ymd_opt` and
/// `and_hms_nano_opt`, then `format` and `to_string`). Trusted: for
/// `%Y-%m-%d %H:%M:%S` the result is `datetime_text` of the fields and for
/// `%S` the two digits of the second, as chrono's formatting code writes
/// them (zero-padded fields, the sign rule of `%Y`, and 60 as the second
/// of a leap second). The date and time
/// must be valid and the format one of these two, so that nothing fails.
#[verifier::external_body]
fn format_date_time(
    year: i32,
    month: u32,
    day: u32,
    hour: u32,
    minute: u32,
    second: u32,
    nanosecond: u32,
    pattern: &str,
) -> (s: String)
    requires
        valid_date_time(year, month, day, hour, minute, second, nanosecond),
        pattern@ == MYSQL_DATETIME_FORMAT@ || pattern@ == SECONDS_FORMAT@,
    ensures
        pattern@ == MYSQL_DATETIME_FORMAT@ ==> s@ == datetime_text(
            year as int,
            month as nat,
            day as nat,
            hour as nat,
            minute as nat,
            shown_second(second, nanosecond),
        ),
        pattern@ == SECONDS_FORMAT@ ==> s@ == two_digits(shown_second(second, nanosecond)),
{
    NaiveDate::from_ymd_opt(year, month, day).unwrap().and_hms_nano_opt(hour, minute, second, nanosecond).unwrap().format(
        pattern,
    ).to_string()
}

/// The local time of an event, as calendar fields.
#[derive(Clone, Copy, Debug)]
pub struct EventTime {
    year: i32,
    month: u32,
    day: u32,
    hour: u32,
    minute: u32,
    second: u32,
    nanosecond: u32,
}

/// The fields of an event time.
pub ghost struct EventTimeView {
    pub year: i32,
    pub month: u32,
    pub day: u32,
    pub hour: u32,
    pub minute: u32,
    pub second: u32,
    pub nanosecond: u32,
}

impl View for EventTime {
    type V = EventTimeView;

    closed spec fn view(&self) -> EventTimeView {
        EventTimeView {
            year: self.year,
            month: self.month,
            day: self.day,
            hour: self.hour,
            minute: self.minute,
            second: self.second,
            nanosecond: self.nanosecond,
        }
    }
}

/// A timestamp in MySQL `datetime` form, for an event time.
pub open spec fn mysql_datetime(t: EventTimeView) -> Seq<char> {
    datetime_text(
        t.year as int,
        t.month as nat,
        t.day as nat,
        t.hour as nat,
        t.minute as nat,
        shown_second(t.second, t.nanosecond),
    )
}

/// The seconds of an event time, in two digits.
pub open spec fn seconds_text(t: EventTimeView) -> Seq<char> {
    two_digits(shown_second(t.second, t.nanosecond))
}

fn is_leap(y: i32) -> (b: bool)
    ensures
        b == is_leap_year(y as int),
{
    let u: u64 = if y < 0 {
        (-(y as i64)) as u64
    } else {
        y as u64
    };
    proof {
        let a = u as int;
        let yi = y as int;
        assert(a == yi || a == -yi);
        lemma_divisible_abs(yi, a, 4);
        lemma_divisible_abs(yi, a, 100);
        lemma_divisible_abs(yi, a, 400);
    }
    (u % 4 == 0 && u % 100 != 0) || u % 400 == 0
}

proof fn lemma_divisible_abs(y: int, a: int, k: int)
    requires
        a == y || a == -y,
        k > 0,
    ensures
        (y % k == 0) <==> (a % k == 0),
{
    if a == -y {
        if y % k == 0 {
            vstd::arithmetic::div_mod::lemma_fundamental_div_mod(y, k);
            assert(a == k * (-(y / k))) by (nonlinear_arith)
                requires
                    a == -y,
                    y == k * (y / k) + y % k,
                    y % k == 0,
            ;
            vstd::arithmetic::div_mod::lemma_mod_multiples_basic(-(y / k), k);
            assert(k * (-(y / k)) == (-(y / k)) * k) by (nonlinear_arith);
        }
        if a % k == 0 {
            vstd::arithmetic::div_mod::lemma_fundamental_div_mod(a, k);
            assert(y == k * (-(a / k))) by (nonlinear_arith)
                requires
                    a == -y,
                    a == k * (a / k) + a % k,
                    a % k == 0,
            ;
            vstd::arithmetic::div_mod::lemma_mod_multiples_basic(-(a / k), k);
            assert(k * (-(a / k)) == (-(a / k)) * k) by (nonlinear_arith);
        }
    }
}

impl EventTime {
    #[verifier::type_invariant]
    closed spec fn inv(self) -> bool {
        valid_date_time(self.year, self.month, self.day, self.hour, self.minute, self.second, self.nanosecond)
    }

    /// The event time with these fields and no fraction of a second, when
    /// they form a valid date and time (see `valid_date_time`).
    pub fn new(year: i32, month: u32, day: u32, hour: u32, minute: u32, second: u32) -> (t: Option<EventTime>)
        ensures
            match t {
                Some(t) => valid_date_time(year, month, day, hour, minute, second, 0) && t@ == (EventTimeView {
                    year,
                    month,
                    day,
                    hour,
                    minute,
                    second,
                    nanosecond: 0,
                }),
                None => !valid_date_time(year, month, day, hour, minute, second, 0),
            },
    {
        EventTime::with_nanosecond(year, month, day, hour, minute, second, 0)
    }

    /// The event time with these fields, as chrono's `NaiveDateTime` gives
    /// them (`nanosecond` at or above one billion during a leap second),
    /// when they form a valid date and time (see `valid_date_time`).
    pub fn with_nanosecond(
        year: i32,
        month: u32,
        day: u32,
        hour: u32,
        minute: u32,
        second: u32,
        nanosecond: u32,
    ) -> (t: Option<EventTime>)
        ensures
            match t {
                Some(t) => valid_date_time(year, month, day, hour, minute, second, nanosecond) && t@ == (
                EventTimeView { year, month, day, hour, minute, second, nanosecond }),
                None => !valid_date_time(year, month, day, hour, minute, second, nanosecond),
            },
    {
        if year < MIN_YEAR || year > MAX_YEAR || month < 1 || month > 12 || hour >= 24 || minute >= 60
            || second >= 60 || day < 1 || nanosecond >= 2 * NANOS_PER_SEC || (nanosecond >= NANOS_PER_SEC
            && second != 59) {
            return None;
        }
        let leap = is_leap(year);
        let days: u32 = if month == 2 {
            if leap {
                29
            } else {
                28
            }
        } else if month == 4 || month == 6 || month == 9 || month == 11 {
            30
        } else {
            31
        };
        if day > days {
            return None;
        }
        Some(EventTime { year, month, day, hour, minute, second, nanosecond })
    }

    /// The timestamp in MySQL `datetime` form (`%Y-%m-%d %H:%M:%S`).
    pub fn mysql_datetime(&self) -> (s: String)
        ensures
            s@ == mysql_datetime(self@),
    {
        proof {
            use_type_invariant(self);
        }
        format_date_time(
            self.year,
            self.month,
            self.day,
            self.hour,
            self.minute,
            self.second,
            self.nanosecond,
            MYSQL_DATETIME_FORMAT,
        )
    }

    /// The seconds (`%S`; 60 during a leap second).
    pub fn seconds_text(&self) -> (s: String)
        ensures
            s@ == seconds_text(self@),
    {
        proof {
            use_type_invariant(self);
        }
        format_date_time(
            self.year,
            self.month,
            self.day,
            self.hour,
            self.minute,
            self.second,
            self.nanosecond,
            SECONDS_FORMAT,
        )
    }
}

/// An alarm event reported by a subscriber's panel.
#[derive(Clone, Debug)]
pub struct Event {
    pub abonado: String,
    pub fecha: EventTime,
    pub evento: String,
    pub zona: String,
    pub particion: String,
    pub descripcion: String,
    /// `Evento` or `AlarmaN`.
    pub alarma_tipo: String,
}


/// Name of the report table of a month: `rep_`, the year, then the month
/// number without padding.
pub open spec fn monthly_table_name_spec(year: int, month: nat) -> Seq<char> {
    "rep_"@ + signed_decimal(year) + decimal(month)
}

/// Name of the report table of the given year and month.
pub fn monthly_table_name(year: i32, month: u32) -> (name: String)
    ensures
        name@ == monthly_table_name_spec(year as int, month as nat),
{
    let mut name = String::new();
    push_str(&mut name, "rep_");
    push_signed_decimal(&mut name, year as i64);
    push_decimal(&mut name, month as u64);
    name
}

/// Text of the statement that creates a month's report table, before and
/// after the table name.
pub const CREATE_TABLE_HEAD: &'static str = "CREATE TABLE IF NOT EXISTS `";

pub const CREATE_TABLE_TAIL: &'static str = "` (\n            `rep_id` int(11) NOT NULL AUTO_INCREMENT,\n            `rep_abonado` varchar(10) DEFAULT NULL,\n            `rep_fec` datetime DEFAULT NULL,\n            `rep_cadena` varchar(50) DEFAULT NULL,\n            `rep_evento` varchar(100) DEFAULT NULL,\n            `rep_evento_cod` varchar(10) DEFAULT NULL,\n            `rep_zona` varchar(10) DEFAULT NULL,\n            `rep_particion` varchar(10) DEFAULT NULL,\n            `ab_seg` varchar(2) DEFAULT NULL,\n            PRIMARY KEY (`rep_id`),\n            KEY `idx_abonado` (`rep_abonado`),\n            KEY `idx_fecha` (`rep_fec`)\n        ) ENGINE=InnoDB DEFAULT CHARSET=utf8;";

/// Text of the statement that records an event in a report table, before
/// and after the table name; it takes eight parameters.
pub const INSERT_EVENT_HEAD: &'static str = "INSERT INTO `";

pub const INSERT_EVENT_TAIL: &'static str = "` (rep_abonado, rep_fec, rep_cadena, rep_evento, rep_evento_cod, rep_zona, rep_particion, ab_seg) \n         VALUES (?, ?, ?, ?, ?, ?, ?, ?)";

/// Statement that stores the subscriber's last report time.
pub const UPDATE_LAST_REPORT: &'static str = "UPDATE abonados SET ab_lr = ? WHERE ad_idname = ?";

/// Statement that empties the table of the latest event.
pub const TRUNCATE_LAST: &'static str = "TRUNCATE rep_last";

/// Statement that records the latest event; it takes eight parameters.
pub const INSERT_LAST: &'static str = "INSERT INTO rep_last(rep_abonado, rep_fec, rep_cadena, rep_evento, rep_evento_cod, rep_zona, rep_particion, ab_seg) VALUES(?, ?, ?, ?, ?, ?, ?, ?)";

/// The statement that creates a month's report table if it is missing.
pub open spec fn create_table_sql_spec(table: Seq<char>) -> Seq<char> {
    CREATE_TABLE_HEAD@ + table + CREATE_TABLE_TAIL@
}

/// The statement that creates the report table `table_name` if it is
/// missing.
pub fn create_table_sql(table_name: &str) -> (sql: String)
    ensures
        sql@ == create_table_sql_spec(table_name@),
{
    let mut sql = String::new();
    push_str(&mut sql, CREATE_TABLE_HEAD);
    push_str(&mut sql, table_name);
    push_str(&mut sql, CREATE_TABLE_TAIL);
    sql
}

/// The statement that records an event in a report table.
pub open spec fn insert_event_sql_spec(table: Seq<char>) -> Seq<char> {
    INSERT_EVENT_HEAD@ + table + INSERT_EVENT_TAIL@
}

/// The statement that records an event in the report table `table_name`.
pub fn insert_event_sql(table_name: &str) -> (sql: String)
    ensures
        sql@ == insert_event_sql_spec(table_name@),
{
    let mut sql = String::new();
    push_str(&mut sql, INSERT_EVENT_HEAD);
    push_str(&mut sql, table_name);
    push_str(&mut sql, INSERT_EVENT_TAIL);
    sql
}

/// Armed state of a subscriber's panel after an event.
#[derive(Clone, Copy, Debug, PartialEq, Eq, Structural)]
pub enum ArmedState {
    Cerrado,
    Abierto,
    CerradoParcial,
}

/// How the armed state is written in the subscriber table.
pub open spec fn armed_text(s: ArmedState) -> Seq<char> {
    match s {
        ArmedState::Cerrado => "CERRADO"@,
        ArmedState::Abierto => "ABIERTO"@,
        ArmedState::CerradoParcial => "CERRADO PARCIAL"@,
    }
}

impl ArmedState {
    /// How the state is written in the subscriber table.
    pub fn text(&self) -> (s: &'static str)
        ensures
            s@ == armed_text(*self),
    {
        match self {
            ArmedState::Cerrado => "CERRADO",
            ArmedState::Abierto => "ABIERTO",
            ArmedState::CerradoParcial => "CERRADO PARCIAL",
        }
    }
}

/// The armed state an event code reports: the closing codes 3400, 3401,
/// 3402, 3408 and 3409, the opening codes 1400, 1401, 1402 and 1409, and
/// the partial closing 3441. Other codes report none.
pub open spec fn armed_state_of(evento: Seq<char>) -> Option<ArmedState> {
    if evento == "3400"@ || evento == "3401"@ || evento == "3409"@ || evento == "3402"@ || evento
        == "3408"@ {
        Some(ArmedState::Cerrado)
    } else if evento == "1400"@ || evento == "1401"@ || evento == "1409"@ || evento == "1402"@ {
        Some(ArmedState::Abierto)
    } else if evento == "3441"@ {
        Some(ArmedState::CerradoParcial)
    } else {
        None
    }
}

/// The armed state an event code reports (see `armed_state_of`).
pub fn armed_state_for(evento: &str) -> (s: Option<ArmedState>)
    ensures
        s == armed_state_of(evento@),
{
    if str_eq(evento, "3400") || str_eq(evento, "3401") || str_eq(evento, "3409") || str_eq(evento, "3402")
        || str_eq(evento, "3408") {
        Some(ArmedState::Cerrado)
    } else if str_eq(evento, "1400") || str_eq(evento, "1401") || str_eq(evento, "1409") || str_eq(
        evento,
        "1402",
    ) {
        Some(ArmedState::Abierto)
    } else if str_eq(evento, "3441") {
        Some(ArmedState::CerradoParcial)
    } else {
        None
    }
}

/// The statement that stores the armed state and last report time of a
/// subscriber.
pub open spec fn armed_update_sql_spec(state: ArmedState, fecha: Seq<char>, abonado: Seq<char>) -> Seq<char> {
    "Update abonados set ab_armado = '"@ + armed_text(state) + "', ab_fecultrepo = '"@ + fecha
        + "' where ad_idname = '"@ + abonado + "'"@
}

/// The statement that stores the armed state an event reports, if it
/// reports one.
pub fn armed_update_sql(evento: &str, fecha: &str, abonado: &str) -> (sql: Option<String>)
    ensures
        match armed_state_of(evento@) {
            Some(st) => sql matches Some(q) && q@ == armed_update_sql_spec(st, fecha@, abonado@),
            None => sql is None,
        },
{
    match armed_state_for(evento) {
        Some(state) => {
            let mut sql = String::new();
            push_str(&mut sql, "Update abonados set ab_armado = '");
            push_str(&mut sql, state.text());
            push_str(&mut sql, "', ab_fecultrepo = '");
            push_str(&mut sql, fecha);
            push_str(&mut sql, "' where ad_idname = '");
            push_str(&mut sql, abonado);
            push_str(&mut sql, "'");
            Some(sql)
        },
        None => None,
    }
}

/// A statement for the database, with the values of its parameters.
pub struct SqlStatement {
    pub sql: String,
    pub binds: Vec<String>,
}

/// A statement as plain text: its SQL and its parameter values.
pub type StatementView = (Seq<char>, Seq<Seq<char>>);

/// The text of a statement and of its parameters.
pub open spec fn statement_view(s: SqlStatement) -> StatementView {
    (s.sql@, s.binds@.map_values(|b: String| b@))
}

/// The eight values that record an event: subscriber, time, alarm type,
/// description, code, zone, partition and seconds.
pub open spec fn event_row(e: Event, fecha: Seq<char>, seg: Seq<char>) -> Seq<Seq<char>> {
    seq![e.abonado@, fecha, e.alarma_tipo@, e.descripcion@, e.evento@, e.zona@, e.particion@, seg]
}

/// The statements that save an event, in order: create the month's report
/// table if missing, record the event there, store the armed state (for
/// codes that report one), store the last report time, empty `rep_last`
/// and record the event there.
pub open spec fn save_event_plan(e: Event, table: Seq<char>) -> Seq<StatementView> {
    let fecha = mysql_datetime(e.fecha@);
    let seg = seconds_text(e.fecha@);
    let head = seq![
        (create_table_sql_spec(table), Seq::<Seq<char>>::empty()),
        (insert_event_sql_spec(table), event_row(e, fecha, seg)),
    ];
    let armed = match armed_state_of(e.evento@) {
        Some(st) => seq![(armed_update_sql_spec(st, fecha, e.abonado@), Seq::<Seq<char>>::empty())],
        None => Seq::<StatementView>::empty(),
    };
    let tail = seq![
        (UPDATE_LAST_REPORT@, seq![fecha, e.abonado@]),
        (TRUNCATE_LAST@, Seq::<Seq<char>>::empty()),
        (INSERT_LAST@, event_row(e, fecha, seg)),
    ];
    head + armed + tail
}

fn clone_string(s: &String) -> (c: String)
    ensures
        c@ == s@,
{
    s.clone()
}

fn row_binds(e: &Event, fecha: &String, seg: &String) -> (v: Vec<String>)
    ensures
        v@.map_values(|b: String| b@) == event_row(*e, fecha@, seg@),
{
    let v: Vec<String> = vec![
        clone_string(&e.abonado),
        clone_string(fecha),
        clone_string(&e.alarma_tipo),
        clone_string(&e.descripcion),
        clone_string(&e.evento),
        clone_string(&e.zona),
        clone_string(&e.particion),
        clone_string(seg),
    ];
    assert(v@.map_values(|b: String| b@) =~= event_row(*e, fecha@, seg@));
    v
}

fn no_binds() -> (v: Vec<String>)
    ensures
        v@.map_values(|b: String| b@) == Seq::<Seq<char>>::empty(),
{
    let v: Vec<String> = Vec::new();
    assert(v@.map_values(|b: String| b@) =~= Seq::<Seq<char>>::empty());
    v
}

fn statement(sql: String, binds: Vec<String>) -> (s: SqlStatement)
    ensures
        s.sql == sql,
        s.binds == binds,
{
    SqlStatement { sql, binds }
}

fn push_statement(plan: &mut Vec<SqlStatement>, s: SqlStatement)
    ensures
        final(plan)@.map_values(|x: SqlStatement| statement_view(x)) == old(plan)@.map_values(
            |x: SqlStatement| statement_view(x),
        ).push(statement_view(s)),
{
    let ghost before = plan@;
    plan.push(s);
    assert(plan@.map_values(|x: SqlStatement| statement_view(x)) =~= before.map_values(
        |x: SqlStatement| statement_view(x),
    ).push(statement_view(s)));
}

/// The statements that save `event` into the report table `table_name`
/// (see `save_event_plan`); they are run in order and the first failure
/// stops the rest.
pub fn save_event_statements(event: &Event, table_name: &str) -> (plan: Vec<SqlStatement>)
    ensures
        plan@.map_values(|x: SqlStatement| statement_view(x)) == save_event_plan(*event, table_name@),
{
    let fecha = event.fecha.mysql_datetime();
    let seg = event.fecha.seconds_text();
    let ghost f = |x: SqlStatement| statement_view(x);
    let ghost e = *event;
    let ghost row = event_row(e, fecha@, seg@);
    let mut plan: Vec<SqlStatement> = Vec::new();
    assert(plan@.map_values(f) =~= Seq::<StatementView>::empty());
    push_statement(&mut plan, statement(create_table_sql(table_name), no_binds()));
    push_statement(&mut plan, statement(insert_event_sql(table_name), row_binds(event, &fecha, &seg)));
    let ghost head = seq![
        (create_table_sql_spec(table_name@), Seq::<Seq<char>>::empty()),
        (insert_event_sql_spec(table_name@), row),
    ];
    assert(plan@.map_values(f) =~= head);
    let ghost armed: Seq<StatementView> = match armed_state_of(e.evento@) {
        Some(st) => seq![(armed_update_sql_spec(st, fecha@, e.abonado@), Seq::<Seq<char>>::empty())],
        None => Seq::<StatementView>::empty(),
    };
    match armed_update_sql(event.evento.as_str(), fecha.as_str(), event.abonado.as_str()) {
        Some(q) => push_statement(&mut plan, statement(q, no_binds())),
        None => {},
    }
    assert(plan@.map_values(f) =~= head + armed);
    let lr_binds = vec![clone_string(&fecha), clone_string(&event.abonado)];
    assert(lr_binds@.map_values(|b: String| b@) =~= seq![fecha@, e.abonado@]);
    push_statement(&mut plan, statement(String::from_str(UPDATE_LAST_REPORT), lr_binds));
    push_statement(&mut plan, statement(String::from_str(TRUNCATE_LAST), no_binds()));
    push_statement(&mut plan, statement(String::from_str(INSERT_LAST), row_binds(event, &fecha, &seg)));
    let ghost tail = seq![
        (UPDATE_LAST_REPORT@, seq![fecha@, e.abonado@]),
        (TRUNCATE_LAST@, Seq::<Seq<char>>::empty()),
        (INSERT_LAST@, row),
    ];
    assert(plan@.map_values(f) =~= head + armed + tail);
    plan
}

/// Whether a category name marks an alarm (100, 110, 120 or 130).
pub open spec fn is_alarm_category(cat_nombre: Seq<char>) -> bool {
    cat_nombre == "100"@ || cat_nombre == "110"@ || cat_nombre == "120"@ || cat_nombre == "130"@
}

/// The description of an event and its type (`AlarmaN` or `Evento`), from
/// the code table's row (description, category, category name) when there
/// is one: restorals (codes starting with 3) are marked `REESTABLECE-->`,
/// and the category comes before the description. Without a row the code
/// itself describes the event.
pub open spec fn event_description_spec(
    row: Option<(Seq<char>, Seq<char>, Seq<char>)>,
    original_evento: Seq<char>,
) -> (Seq<char>, Seq<char>) {
    match row {
        Some((desc, cat, cat_nombre)) => {
            let prefix = if has_prefix(original_evento, "3"@) {
                "REESTABLECE-->"@
            } else {
                Seq::empty()
            };
            (
                prefix + cat + ":"@ + desc,
                if is_alarm_category(cat_nombre) {
                    "AlarmaN"@
                } else {
                    "Evento"@
                },
            )
        },
        None => (original_evento, "Evento"@),
    }
}

/// The description and type of an event (see `event_description_spec`);
/// `row` is the code table's row for its code, if any.
pub fn describe_event(row: Option<(String, String, String)>, original_evento: &str) -> (res: (String, String))
    ensures
        (res.0@, res.1@) == event_description_spec(
            match row {
                Some(r) => Some((r.0@, r.1@, r.2@)),
                None => None,
            },
            original_evento@,
        ),
{
    match row {
        Some((desc, cat, cat_nombre)) => {
            let alarm = str_eq(cat_nombre.as_str(), "100") || str_eq(cat_nombre.as_str(), "110") || str_eq(
                cat_nombre.as_str(),
                "120",
            ) || str_eq(cat_nombre.as_str(), "130");
            let mut text = String::new();
            if starts_with(original_evento, "3") {
                push_str(&mut text, "REESTABLECE-->");
            }
            push_str(&mut text, cat.as_str());
            push_str(&mut text, ":");
            push_str(&mut text, desc.as_str());
            let kind = if alarm {
                String::from_str("AlarmaN")
            } else {
                String::from_str("Evento")
            };
            (text, kind)
        },
        None => (String::from_str(original_evento), String::from_str("Evento")),
    }
}

/// The type of an event: with a code-table row it is `AlarmaN` exactly for
/// the category names 100, 110, 120 and 130, and `Evento` for any other;
/// without a row it is `Evento`. A restoral (a code starting with 3) is
/// described as `REESTABLECE-->`, the category, `:` and the description;
/// any other code as the category, `:` and the description; without a row
/// the code describes itself.
pub proof fn lemma_event_type(
    desc: Seq<char>,
    cat: Seq<char>,
    cat_nombre: Seq<char>,
    original_evento: Seq<char>,
)
    ensures
        event_description_spec(Some((desc, cat, cat_nombre)), original_evento).1 == "AlarmaN"@ <==> (
        cat_nombre == "100"@ || cat_nombre == "110"@ || cat_nombre == "120"@ || cat_nombre == "130"@),
        !(cat_nombre == "100"@ || cat_nombre == "110"@ || cat_nombre == "120"@ || cat_nombre == "130"@)
            ==> event_description_spec(Some((desc, cat, cat_nombre)), original_evento).1 == "Evento"@,
        event_description_spec(None, original_evento) == (original_evento, "Evento"@),
        original_evento.len() > 0 && original_evento[0] == '3' ==> event_description_spec(
            Some((desc, cat, cat_nombre)),
            original_evento,
        ).0 == "REESTABLECE-->"@ + cat + ":"@ + desc,
        !(original_evento.len() > 0 && original_evento[0] == '3') ==> event_description_spec(
            Some((desc, cat, cat_nombre)),
            original_evento,
        ).0 == cat + ":"@ + desc,
{
    reveal_strlit("AlarmaN");
    reveal_strlit("Evento");
    reveal_strlit("3");
    assert(("AlarmaN"@).len() != ("Evento"@).len());
    if original_evento.len() > 0 && original_evento[0] == '3' {
        assert(original_evento.subrange(0, 1) =~= "3"@);
        assert(has_prefix(original_evento, "3"@));
    } else {
        if has_prefix(original_evento, "3"@) {
            assert(original_evento.subrange(0, 1)[0] == original_evento[0]);
        }
        assert(!has_prefix(original_evento, "3"@));
        assert(Seq::<char>::empty() + cat + ":"@ + desc =~= cat + ":"@ + desc);
    }
}

/// The statement for an event that reports an armed state writes, word for
/// word: `CERRADO` for the closing codes 3400, 3401, 3402, 3408 and 3409,
/// `ABIERTO` for the opening codes 1400, 1401, 1402 and 1409, and
/// `CERRADO PARCIAL` for 3441; other codes report no state. The three
/// texts differ from each other.
pub proof fn lemma_armed_update_texts(evento: Seq<char>, fecha: Seq<char>, abonado: Seq<char>)
    ensures
        (evento == "3400"@ || evento == "3401"@ || evento == "3402"@ || evento == "3408"@ || evento == "3409"@)
            ==> armed_state_of(evento) == Some(ArmedState::Cerrado) && armed_update_sql_spec(
            ArmedState::Cerrado,
            fecha,
            abonado,
        ) == "Update abonados set ab_armado = 'CERRADO', ab_fecultrepo = '"@ + fecha + "' where ad_idname = '"@
            + abonado + "'"@,
        (evento == "1400"@ || evento == "1401"@ || evento == "1402"@ || evento == "1409"@) ==> armed_state_of(
            evento,
        ) == Some(ArmedState::Abierto) && armed_update_sql_spec(ArmedState::Abierto, fecha, abonado)
            == "Update abonados set ab_armado = 'ABIERTO', ab_fecultrepo = '"@ + fecha + "' where ad_idname = '"@
            + abonado + "'"@,
        evento == "3441"@ ==> armed_state_of(evento) == Some(ArmedState::CerradoParcial) && armed_update_sql_spec(
            ArmedState::CerradoParcial,
            fecha,
            abonado,
        ) == "Update abonados set ab_armado = 'CERRADO PARCIAL', ab_fecultrepo = '"@ + fecha
            + "' where ad_idname = '"@ + abonado + "'"@,
        !(evento == "3400"@ || evento == "3401"@ || evento == "3402"@ || evento == "3408"@ || evento == "3409"@
            || evento == "1400"@ || evento == "1401"@ || evento == "1402"@ || evento == "1409"@ || evento
            == "3441"@) ==> armed_state_of(evento) is None,
        armed_text(ArmedState::Cerrado) != armed_text(ArmedState::Abierto),
        armed_text(ArmedState::Cerrado) != armed_text(ArmedState::CerradoParcial),
        armed_text(ArmedState::Abierto) != armed_text(ArmedState::CerradoParcial),
{
    reveal_strlit("Update abonados set ab_armado = '");
    reveal_strlit("', ab_fecultrepo = '");
    reveal_strlit("' where ad_idname = '");
    reveal_strlit("'");
    reveal_strlit("CERRADO");
    reveal_strlit("ABIERTO");
    reveal_strlit("CERRADO PARCIAL");
    reveal_strlit("Update abonados set ab_armado = 'CERRADO', ab_fecultrepo = '");
    reveal_strlit("Update abonados set ab_armado = 'ABIERTO', ab_fecultrepo = '");
    reveal_strlit("Update abonados set ab_armado = 'CERRADO PARCIAL', ab_fecultrepo = '");
    reveal_strlit("3400");
    reveal_strlit("3401");
    reveal_strlit("3402");
    reveal_strlit("3408");
    reveal_strlit("3409");
    reveal_strlit("1400");
    reveal_strlit("1401");
    reveal_strlit("1402");
    reveal_strlit("1409");
    reveal_strlit("3441");
    assert(armed_update_sql_spec(ArmedState::Cerrado, fecha, abonado)
        =~= "Update abonados set ab_armado = 'CERRADO', ab_fecultrepo = '"@ + fecha + "' where ad_idname = '"@
        + abonado + "'"@);
    assert(armed_update_sql_spec(ArmedState::Abierto, fecha, abonado)
        =~= "Update abonados set ab_armado = 'ABIERTO', ab_fecultrepo = '"@ + fecha + "' where ad_idname = '"@
        + abonado + "'"@);
    assert(armed_update_sql_spec(ArmedState::CerradoParcial, fecha, abonado)
        =~= "Update abonados set ab_armado = 'CERRADO PARCIAL', ab_fecultrepo = '"@ + fecha
        + "' where ad_idname = '"@ + abonado + "'"@);
    assert(("CERRADO"@)[0] == 'C' && ("ABIERTO"@)[0] == 'A');
    assert(("CERRADO"@).len() != ("CERRADO PARCIAL"@).len());
    assert(("ABIERTO"@).len() != ("CERRADO PARCIAL"@).len());
    if evento == "1400"@ || evento == "1401"@ || evento == "1402"@ || evento == "1409"@ {
        assert(evento[0] == '1');
    }
    if evento == "3441"@ {
        assert(evento[2] == '4' && evento[3] == '1');
    }
}

} // verus!
