use pt_rs::db::{
    create_table_statement, delete_item_statement, discount_id, same_item_query_text,
    update_item_statement, DecodeError,
};
use pt_rs::ptsite::Discount;
use pt_rs::size::SizeGb;
use pt_rs::upsert::{insert_or_update_item as upsert_statements, sort_ids, upsert_actions, DbAction};
use pt_rs::DataItem;
use sqlite::Connection;

/// The torrent the tests store.
fn gen_test_data() -> DataItem {
    DataItem::new(
        "ddd",
        "this is a test",
        5,
        0,
        4,
        SizeGb { mantissa: 1, exponent: 0 },
        45211,
        "https://www.okpt.net/details.php?id=4553&hit=1",
        None,
        None,
    )
}

fn fixed_item() -> DataItem {
    let mut d = gen_test_data();
    d.last_update = 1700000000;
    d
}

fn create_table(db_name: &str) -> Connection {
    let conn = sqlite::open(db_name).unwrap();
    conn.execute(create_table_statement()).unwrap();
    conn
}

fn insert_item(conn: &Connection, data: &DataItem) {
    conn.execute(data.to_insert_statement()).unwrap();
}

fn query_same_item(conn: &Connection, data: &DataItem) -> Vec<(usize, DataItem)> {
    let mut res = vec![];
    conn.iterate(same_item_query_text(data), |nvs| {
        res.push(DataItem::from_name_value_pairs(nvs).unwrap());
        true
    })
    .unwrap();
    res
}

fn insert_or_update_item(conn: &Connection, data: &DataItem) {
    let found: Vec<usize> = query_same_item(conn, data).iter().map(|(id, _)| *id).collect();
    for statement in upsert_statements(data, &found) {
        conn.execute(statement).unwrap();
    }
}

#[test]
fn test_insert_twice_then_query() {
    let conn = create_table(":memory:");
    let data = gen_test_data();

    insert_item(&conn, &data);
    let res = query_same_item(&conn, &data);
    assert_eq!(res.len(), 1);

    insert_item(&conn, &data);
    let res = query_same_item(&conn, &data);
    assert_eq!(res.len(), 2);
}

#[test]
fn test_insert_or_update_item() {
    let conn = create_table(":memory:");
    let data = gen_test_data();

    insert_or_update_item(&conn, &data);
    insert_or_update_item(&conn, &data);
    insert_or_update_item(&conn, &data);
    let res = query_same_item(&conn, &data);
    assert_eq!(res.len(), 1);
}

#[test]
fn stored_item_reads_back() {
    let conn = create_table(":memory:");
    let mut data = fixed_item();
    data.title = "It's 'quoted'".to_string();
    data.size = SizeGb { mantissa: 15, exponent: -1 };
    data.publish_time = -3;
    insert_item(&conn, &data);
    let res = query_same_item(&conn, &data);
    assert_eq!(res.len(), 1);
    let (id, back) = &res[0];
    assert_eq!(*id, 1);
    assert_eq!(back.title, "It's 'quoted'");
    assert_eq!(back.desc, "this is a test");
    assert_eq!(back.finished, 5);
    assert_eq!(back.download, 0);
    assert_eq!(back.upload, 4);
    assert_eq!(back.size, SizeGb { mantissa: 15, exponent: -1 });
    assert_eq!(back.publish_time, -3);
    assert_eq!(back.last_update, 1700000000);
    assert_eq!(back.src_link, data.src_link);
    assert_eq!(back.discount, None);
    assert_eq!(back.discount_due, None);
}

#[test]
fn upsert_keeps_the_newest_row_and_its_id() {
    let conn = create_table(":memory:");
    let data = fixed_item();
    insert_item(&conn, &data);
    insert_item(&conn, &data);
    insert_item(&conn, &data);
    let mut changed = fixed_item();
    changed.finished = 99;
    insert_or_update_item(&conn, &changed);
    let res = query_same_item(&conn, &data);
    assert_eq!(res.len(), 1);
    assert_eq!(res[0].0, 3);
    assert_eq!(res[0].1.finished, 99);
}

#[test]
fn rows_of_other_torrents_are_kept() {
    let conn = create_table(":memory:");
    let data = fixed_item();
    let mut other = fixed_item();
    other.src_link = "https://www.okpt.net/details.php?id=1&hit=1".to_string();
    insert_item(&conn, &other);
    insert_or_update_item(&conn, &data);
    insert_or_update_item(&conn, &data);
    assert_eq!(query_same_item(&conn, &data).len(), 1);
    let kept = query_same_item(&conn, &other);
    assert_eq!(kept.len(), 1);
    assert_eq!(kept[0].0, 1);
}

#[test]
fn insert_statement_text() {
    let d = fixed_item();
    let expected = format!(
        "\n            INSERT INTO resources (\n                title, desc, \n                finished, download, upload, \n                size, publish_time, last_update,\n                src_link, discount, discount_due\n            ) VALUES (\n                '{}', '{}', \n                {}, {}, {}, \n                {}, {}, {},\n                '{}', {}, {}\n            )",
        "ddd", "this is a test", 5, 0, 4, 1, 45211, 1700000000,
        "https://www.okpt.net/details.php?id=4553&hit=1", -1, -1
    );
    assert_eq!(d.to_insert_statement(), expected);
}

#[test]
fn insert_statement_with_promotion_and_quotes() {
    let mut d = fixed_item();
    d.title = "Bob's".to_string();
    d.desc = "''".to_string();
    d.size = SizeGb { mantissa: 25, exponent: -2 };
    d.discount = Some(Discount::Free);
    d.discount_due = Some(1691824664);
    let expected = format!(
        "\n            INSERT INTO resources (\n                title, desc, \n                finished, download, upload, \n                size, publish_time, last_update,\n                src_link, discount, discount_due\n            ) VALUES (\n                '{}', '{}', \n                {}, {}, {}, \n                {}, {}, {},\n                '{}', {}, {}\n            )",
        "Bob''s", "''''", 5, 0, 4, "0.25", 45211, 1700000000,
        "https://www.okpt.net/details.php?id=4553&hit=1", 1, 1691824664
    );
    assert_eq!(d.to_insert_statement(), expected);
}

fn set_text(d: &DataItem, size: &str, discount: i32) -> String {
    format!(
        "\n            title = '{}',\n            desc = '{}',\n\n            finished = {},\n            download = {},\n            upload = {},\n\n            size = {},\n            publish_time = {},\n            last_update = {},\n\n            src_link = '{}',\n\n            discount = {}\n        ",
        d.title.replace('\'', "''"), d.desc.replace('\'', "''"), d.finished, d.download, d.upload,
        size, d.publish_time, d.last_update, d.src_link, discount
    )
}

#[test]
fn update_statement_text() {
    let d = fixed_item();
    assert_eq!(d.to_name_value_string(), set_text(&d, "1", -1));
    assert_eq!(
        update_item_statement(7, &d),
        format!("\n        UPDATE {}\n        SET {}\n        WHERE ID = {}\n    ", "resources", set_text(&d, "1", -1), 7)
    );
}

#[test]
fn update_statement_sets_promotion_end_only_when_known() {
    let mut d = fixed_item();
    d.discount = Some(Discount::DoubleFree);
    d.discount_due = Some(42);
    assert_eq!(d.to_name_value_string(), format!("{}, discount_due = 42", set_text(&d, "1", 0)));
}

#[test]
fn delete_and_query_statement_text() {
    assert_eq!(
        delete_item_statement(12),
        "\n        DELETE FROM resources\n        WHERE ID = 12\n    "
    );
    assert_eq!(
        same_item_query_text(&fixed_item()),
        "\n        SELECT * from resources where (\n            src_link = 'https://www.okpt.net/details.php?id=4553&hit=1'\n        );\n    "
    );
}

#[test]
fn discount_numbers() {
    assert_eq!(discount_id(&None), -1);
    assert_eq!(discount_id(&Some(Discount::DoubleFree)), 0);
    assert_eq!(discount_id(&Some(Discount::Free)), 1);
    assert_eq!(discount_id(&Some(Discount::R25)), 2);
    assert_eq!(discount_id(&Some(Discount::FiftyPerOff)), 2);
}

fn full_row<'a>() -> Vec<(&'a str, Option<&'a str>)> {
    vec![
        ("ID", Some("3")),
        ("title", Some("ddd")),
        ("desc", Some("this is a test")),
        ("src_link", Some("https://www.okpt.net/details.php?id=4553&hit=1")),
        ("finished", Some("5")),
        ("download", Some("0")),
        ("upload", Some("4")),
        ("size", Some("1.0")),
        ("publish_time", Some("45211")),
        ("last_update", Some("1700000000")),
        ("discount", Some("-1")),
        ("discount_due", Some("-1")),
    ]
}

#[test]
fn row_decoded_from_pairs() {
    let (id, d) = DataItem::from_name_value_pairs(&full_row()).unwrap();
    assert_eq!(id, 3);
    assert_eq!(d.title, "ddd");
    assert_eq!(d.size, SizeGb { mantissa: 10, exponent: -1 });
    assert_eq!(d.publish_time, 45211);
    assert_eq!(d.last_update, 1700000000);
    assert_eq!(d.discount, None);
}

#[test]
fn row_with_unknown_column_is_refused() {
    let mut row = full_row();
    row.push(("seeders", Some("1")));
    assert_eq!(DataItem::from_name_value_pairs(&row).unwrap_err(), DecodeError::UnknownColumn);
}

#[test]
fn row_with_bad_number_is_refused() {
    let mut row = full_row();
    row[4] = ("finished", Some("five"));
    assert_eq!(DataItem::from_name_value_pairs(&row).unwrap_err(), DecodeError::BadNumber);
    let mut row = full_row();
    row[7] = ("size", Some("big"));
    assert_eq!(DataItem::from_name_value_pairs(&row).unwrap_err(), DecodeError::BadNumber);
}

#[test]
fn row_with_missing_or_null_column_is_refused() {
    let mut row = full_row();
    row.remove(1);
    assert_eq!(DataItem::from_name_value_pairs(&row).unwrap_err(), DecodeError::MissingColumn);
    let mut row = full_row();
    row[2] = ("desc", None);
    assert_eq!(DataItem::from_name_value_pairs(&row).unwrap_err(), DecodeError::MissingColumn);
}

#[test]
fn ids_sorted() {
    assert_eq!(sort_ids(&vec![7, 3, 5, 3]), vec![3, 3, 5, 7]);
    assert_eq!(sort_ids(&vec![]), Vec::<usize>::new());
}

#[test]
fn upsert_plans() {
    assert_eq!(upsert_actions(&vec![]), vec![DbAction::Insert]);
    assert_eq!(upsert_actions(&vec![5]), vec![DbAction::Update(5)]);
    assert_eq!(
        upsert_actions(&vec![7, 3, 5]),
        vec![DbAction::Delete(3), DbAction::Delete(5), DbAction::Update(7)]
    );
}

#[test]
fn upsert_statements_follow_the_plan() {
    let d = fixed_item();
    assert_eq!(upsert_statements(&d, &vec![]), vec![d.to_insert_statement()]);
    assert_eq!(
        upsert_statements(&d, &vec![9, 2]),
        vec![delete_item_statement(2), update_item_statement(9, &d)]
    );
}

#[test]
fn new_item_is_stamped_with_the_current_time() {
    let d = gen_test_data();
    assert!(d.last_update > 1_600_000_000);
    assert_eq!(d.title, "ddd");
    assert_eq!(d.src_link, "https://www.okpt.net/details.php?id=4553&hit=1");
}

#[test]
fn written_row_reads_back() {
    let mut d = fixed_item();
    d.size = SizeGb { mantissa: 2500, exponent: -4 };
    d.publish_time = -7;
    let mut size = String::new();
    d.size.push_text(&mut size);
    assert_eq!(size, "0.25");
    let row: Vec<(&str, Option<&str>)> = vec![
        ("ID", Some("12")),
        ("title", Some(d.title.as_str())),
        ("desc", Some(d.desc.as_str())),
        ("src_link", Some(d.src_link.as_str())),
        ("finished", Some("5")),
        ("download", Some("0")),
        ("upload", Some("4")),
        ("size", Some(size.as_str())),
        ("publish_time", Some("-7")),
        ("last_update", Some("1700000000")),
        ("discount", Some("-1")),
        ("discount_due", Some("-1")),
    ];
    let (id, back) = DataItem::from_name_value_pairs(&row).unwrap();
    assert_eq!(id, 12);
    assert_eq!(back.title, d.title);
    assert_eq!(back.size, SizeGb { mantissa: 25, exponent: -2 });
    assert_eq!(back.publish_time, -7);
    assert_eq!(back.last_update, 1700000000);
}
