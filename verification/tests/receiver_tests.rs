use kquickview::config::{parse_port, Config, ConfigError};
use kquickview::database::{
    armed_state_for, armed_update_sql, create_table_sql, describe_event,
    insert_event_sql, monthly_table_name, save_event_statements, ArmedState, Event, EventTime,
    INSERT_LAST, TRUNCATE_LAST, UPDATE_LAST_REPORT,
};

fn s(x: &str) -> String {
    x.to_string()
}

#[test]
fn config_from_all_values() {
    let c = Config::from_values(Some(s("mysql://u@h/db")), Some(s("5050")), Some(s("00ff10Ab"))).unwrap();
    assert_eq!(c.database_url, "mysql://u@h/db");
    assert_eq!(c.listen_port, 5050);
    assert_eq!(c.aes_key, vec![0x00, 0xff, 0x10, 0xab]);
}

#[test]
fn config_port_defaults_to_4040() {
    let c = Config::from_values(Some(s("db")), None, Some(s(""))).unwrap();
    assert_eq!(c.listen_port, 4040);
    assert_eq!(c.aes_key, Vec::<u8>::new());
}

#[test]
fn config_errors_in_order() {
    assert_eq!(Config::from_values(None, Some(s("x")), None).err(), Some(ConfigError::MissingDatabaseUrl));
    assert_eq!(Config::from_values(Some(s("db")), Some(s("x")), None).err(), Some(ConfigError::InvalidListenPort));
    assert_eq!(Config::from_values(Some(s("db")), Some(s("80")), None).err(), Some(ConfigError::MissingAesKey));
    assert_eq!(Config::from_values(Some(s("db")), Some(s("80")), Some(s("abc"))).err(), Some(ConfigError::InvalidAesKey));
    assert_eq!(Config::from_values(Some(s("db")), Some(s("80")), Some(s("zz"))).err(), Some(ConfigError::InvalidAesKey));
}

#[test]
fn config_error_messages() {
    assert_eq!(ConfigError::MissingDatabaseUrl.message(), "DATABASE_URL must be set");
    assert_eq!(ConfigError::InvalidListenPort.message(), "LISTEN_PORT must be a number");
    assert_eq!(ConfigError::MissingAesKey.message(), "AES_KEY must be set");
    assert_eq!(ConfigError::InvalidAesKey.message(), "AES_KEY must be a valid hex string");
}

#[test]
fn ports_parse_like_u16() {
    for text in ["0", "80", "+80", "0004040", "65535", "", "+", "-1", "65536", "99999999999", "8 0", " 80", "٣"] {
        assert_eq!(parse_port(text), text.parse::<u16>().ok(), "{:?}", text);
    }
}

fn time(y: i32, mo: u32, d: u32, h: u32, mi: u32, se: u32) -> EventTime {
    EventTime::new(y, mo, d, h, mi, se).unwrap()
}

#[test]
fn event_time_checks_the_calendar() {
    assert!(EventTime::new(2024, 2, 29, 0, 0, 0).is_some());
    assert!(EventTime::new(2023, 2, 29, 0, 0, 0).is_none());
    assert!(EventTime::new(1900, 2, 29, 0, 0, 0).is_none());
    assert!(EventTime::new(2000, 2, 29, 0, 0, 0).is_some());
    assert!(EventTime::new(-4, 2, 29, 0, 0, 0).is_some());
    assert!(EventTime::new(2024, 4, 31, 0, 0, 0).is_none());
    assert!(EventTime::new(2024, 13, 1, 0, 0, 0).is_none());
    assert!(EventTime::new(2024, 0, 1, 0, 0, 0).is_none());
    assert!(EventTime::new(2024, 1, 0, 0, 0, 0).is_none());
    assert!(EventTime::new(2024, 1, 1, 24, 0, 0).is_none());
    assert!(EventTime::new(2024, 1, 1, 0, 60, 0).is_none());
    assert!(EventTime::new(2024, 1, 1, 0, 0, 60).is_none());
    assert!(EventTime::new(262142, 12, 31, 23, 59, 59).is_some());
    assert!(EventTime::new(262143, 1, 1, 0, 0, 0).is_none());
    assert!(EventTime::new(-262143, 1, 1, 0, 0, 0).is_some());
    assert!(EventTime::new(-262144, 1, 1, 0, 0, 0).is_none());
}

#[test]
fn event_time_formats() {
    let t = time(2024, 3, 5, 7, 8, 9);
    assert_eq!(t.mysql_datetime(), "2024-03-05 07:08:09");
    assert_eq!(t.seconds_text(), "09");
}

#[test]
fn table_names() {
    assert_eq!(monthly_table_name(2024, 3), "rep_20243");
    assert_eq!(monthly_table_name(2024, 12), "rep_202412");
    assert_eq!(monthly_table_name(-5, 1), "rep_-51");
    assert_eq!(monthly_table_name(i32::MIN, 1), format!("rep_{}1", i32::MIN));
}

#[test]
fn event_time_year_padding_and_sign() {
    let t = EventTime::new(987, 12, 31, 23, 59, 58).unwrap();
    assert_eq!(t.mysql_datetime(), "0987-12-31 23:59:58");
    let t = EventTime::new(-5, 1, 1, 0, 0, 0).unwrap();
    assert_eq!(t.mysql_datetime(), "-0005-01-01 00:00:00");
    assert_eq!(t.seconds_text(), "00");
    let t = EventTime::new(12345, 6, 7, 1, 2, 3).unwrap();
    assert_eq!(t.mysql_datetime(), "+12345-06-07 01:02:03");
}

#[test]
fn create_and_insert_statements() {
    let create = create_table_sql("rep_20243");
    assert!(create.starts_with("CREATE TABLE IF NOT EXISTS `rep_20243` (\n            `rep_id` int(11) NOT NULL AUTO_INCREMENT,"));
    assert!(create.ends_with("        ) ENGINE=InnoDB DEFAULT CHARSET=utf8;"));
    assert_eq!(
        insert_event_sql("rep_20243"),
        "INSERT INTO `rep_20243` (rep_abonado, rep_fec, rep_cadena, rep_evento, rep_evento_cod, rep_zona, rep_particion, ab_seg) \n         VALUES (?, ?, ?, ?, ?, ?, ?, ?)"
    );
}

#[test]
fn armed_states() {
    for code in ["3400", "3401", "3402", "3408", "3409"] {
        assert_eq!(armed_state_for(code), Some(ArmedState::Cerrado));
    }
    for code in ["1400", "1401", "1402", "1409"] {
        assert_eq!(armed_state_for(code), Some(ArmedState::Abierto));
    }
    assert_eq!(armed_state_for("3441"), Some(ArmedState::CerradoParcial));
    assert_eq!(armed_state_for("1408"), None);
    assert_eq!(armed_state_for(""), None);
    assert_eq!(ArmedState::CerradoParcial.text(), "CERRADO PARCIAL");
}

#[test]
fn armed_update_statement() {
    assert_eq!(
        armed_update_sql("3441", "2024-03-05 07:08:09", "A12"),
        Some(s("Update abonados set ab_armado = 'CERRADO PARCIAL', ab_fecultrepo = '2024-03-05 07:08:09' where ad_idname = 'A12'"))
    );
    assert_eq!(armed_update_sql("1130", "t", "A"), None);
}

fn event(code: &str) -> Event {
    Event {
        abonado: s("A12"),
        fecha: time(2024, 3, 5, 7, 8, 9),
        evento: s(code),
        zona: s("003"),
        particion: s("01"),
        descripcion: s("Robo"),
        alarma_tipo: s("AlarmaN"),
    }
}

fn row() -> Vec<String> {
    ["A12", "2024-03-05 07:08:09", "AlarmaN", "Robo", "3400", "003", "01", "09"].iter().map(|x| s(x)).collect()
}

#[test]
fn save_event_plan_with_armed_state() {
    let plan = save_event_statements(&event("3400"), "rep_20243");
    assert_eq!(plan.len(), 6);
    assert_eq!(plan[0].sql, create_table_sql("rep_20243"));
    assert!(plan[0].binds.is_empty());
    assert_eq!(plan[1].sql, insert_event_sql("rep_20243"));
    assert_eq!(plan[1].binds, row());
    assert_eq!(
        plan[2].sql,
        "Update abonados set ab_armado = 'CERRADO', ab_fecultrepo = '2024-03-05 07:08:09' where ad_idname = 'A12'"
    );
    assert_eq!(plan[3].sql, UPDATE_LAST_REPORT);
    assert_eq!(plan[3].binds, vec![s("2024-03-05 07:08:09"), s("A12")]);
    assert_eq!(plan[4].sql, TRUNCATE_LAST);
    assert_eq!(plan[5].sql, INSERT_LAST);
    assert_eq!(plan[5].binds, row());
}

#[test]
fn save_event_plan_without_armed_state() {
    let plan = save_event_statements(&event("1130"), "rep_20243");
    assert_eq!(plan.len(), 5);
    assert_eq!(plan[2].sql, UPDATE_LAST_REPORT);
    assert_eq!(plan[1].binds[4], "1130");
}

#[test]
fn event_descriptions() {
    assert_eq!(
        describe_event(Some((s("Robo"), s("130"), s("130"))), "1130"),
        (s("130:Robo"), s("AlarmaN"))
    );
    assert_eq!(
        describe_event(Some((s("Robo"), s("130"), s("130"))), "3130"),
        (s("REESTABLECE-->130:Robo"), s("AlarmaN"))
    );
    assert_eq!(
        describe_event(Some((s("Apertura"), s("400"), s("400"))), "1400"),
        (s("400:Apertura"), s("Evento"))
    );
    assert_eq!(describe_event(None, "3999"), (s("3999"), s("Evento")));
}

#[test]
fn leap_second_is_written_as_sixty() {
    let t = EventTime::with_nanosecond(2016, 12, 31, 23, 59, 59, 1_000_000_000).unwrap();
    assert_eq!(t.mysql_datetime(), "2016-12-31 23:59:60");
    assert_eq!(t.seconds_text(), "60");
    let t = EventTime::with_nanosecond(2016, 12, 31, 23, 59, 59, 999_999_999).unwrap();
    assert_eq!(t.mysql_datetime(), "2016-12-31 23:59:59");
    assert!(EventTime::with_nanosecond(2016, 12, 31, 23, 59, 58, 1_000_000_000).is_none());
    assert!(EventTime::with_nanosecond(2016, 12, 31, 23, 59, 59, 2_000_000_000).is_none());
}
