//! The SQL that keeps the resources table, and the reading back of its rows.
use crate::dataitem::{DataItem, DataItemView};
use crate::ptsite::Discount;
use crate::size::{
    lemma_size_text_reads_back, parse_size, same_size, size_from_text, size_text, text_readable, SizeGb,
};
use crate::text::{
    decimal, escape_quotes, lemma_parse_decimal, lemma_parse_signed_decimal, parse_i64, parse_signed, parse_u32, parse_unsigned, parse_usize,
    lemma_sql_reads_escaped, push_decimal, push_escaped, push_signed_decimal, signed_decimal,
    sql_quoted, str_eq,
};
use vstd::prelude::*;
use vstd::string::StringExecFns;

verus! {

/// The statement that creates the resources table where it does not exist yet.
pub open spec fn create_table_text() -> Seq<char> {
    "\n        CREATE TABLE IF NOT EXISTS resources (\n            ID INTEGER PRIMARY KEY AUTOINCREMENT,\n            title           TEXT, \n            desc            TEXT,\n            src_link        TEXT,\n            finished        INTEGER,\n            download        INTEGER,\n            upload          INTEGER,\n            size            REAL,\n            publish_time    INTEGER,\n            last_update     INTEGER,\n\n            discount        INTEGER,\n            discount_due    INTEGER\n        );\n    "@
}

/// The statement that creates the resources table where it does not exist yet.
pub fn create_table_statement() -> (r: String)
    ensures
        r@ == create_table_text(),
{
    String::from_str(
        "\n        CREATE TABLE IF NOT EXISTS resources (\n            ID INTEGER PRIMARY KEY AUTOINCREMENT,\n            title           TEXT, \n            desc            TEXT,\n            src_link        TEXT,\n            finished        INTEGER,\n            download        INTEGER,\n            upload          INTEGER,\n            size            REAL,\n            publish_time    INTEGER,\n            last_update     INTEGER,\n\n            discount        INTEGER,\n            discount_due    INTEGER\n        );\n    ",
    )
}

/// The number that the table keeps for a promotion.
pub open spec fn discount_code(discount: Option<Discount>) -> i32 {
    match discount {
        None => -1i32,
        Some(Discount::DoubleFree) => 0,
        Some(Discount::Free) => 1,
        Some(_) => 2,
    }
}

/// The number that the table keeps for a promotion: -1 for none, 0 for double free, 1 for
/// free, 2 for any other.
pub fn discount_id(discount: &Option<Discount>) -> (r: i32)
    ensures
        r == discount_code(*discount),
{
    match discount {
        None => -1i32,
        Some(x) => match x {
            Discount::DoubleFree => 0,
            Discount::Free => 1,
            _ => 2,
        },
    }
}

/// The end of a promotion as the table keeps it: -1 for none.
pub open spec fn due_text(due: Option<i64>) -> Seq<char> {
    match due {
        None => "-1"@,
        Some(x) => signed_decimal(x as int),
    }
}

/// The statement that adds a torrent to the resources table. Titles and descriptions have
/// their quotes doubled; the address is written as it is.
pub open spec fn insert_statement(v: DataItemView) -> Seq<char> {
    "\n            INSERT INTO resources (\n                title, desc, \n                finished, download, upload, \n                size, publish_time, last_update,\n                src_link, discount, discount_due\n            ) VALUES (\n                '"@
        + escape_quotes(v.title) + "', '"@ + escape_quotes(v.desc) + "', \n                "@
        + decimal(v.finished as nat) + ", "@ + decimal(v.download as nat) + ", "@
        + decimal(v.upload as nat) + ", \n                "@ + size_text(v.size) + ", "@
        + signed_decimal(v.publish_time as int) + ", "@ + signed_decimal(v.last_update as int)
        + ",\n                '"@ + v.src_link + "', "@ + signed_decimal(
        discount_code(v.discount) as int,
    ) + ", "@ + due_text(v.discount_due) + "\n            )"@
}

/// The `SET` part of the statement that updates a torrent's row; the end of the promotion is
/// set only where there is one.
pub open spec fn name_value_text(v: DataItemView) -> Seq<char> {
    "\n            title = '"@ + escape_quotes(v.title) + "',\n            desc = '"@ + escape_quotes(
        v.desc,
    ) + "',\n\n            finished = "@ + decimal(v.finished as nat)
        + ",\n            download = "@ + decimal(v.download as nat)
        + ",\n            upload = "@ + decimal(v.upload as nat) + ",\n\n            size = "@
        + size_text(v.size) + ",\n            publish_time = "@ + signed_decimal(
        v.publish_time as int,
    ) + ",\n            last_update = "@ + signed_decimal(v.last_update as int)
        + ",\n\n            src_link = '"@ + v.src_link + "',\n\n            discount = "@
        + signed_decimal(discount_code(v.discount) as int) + "\n        "@ + match v.discount_due {
        None => Seq::<char>::empty(),
        Some(x) => ", discount_due = "@ + signed_decimal(x as int),
    }
}

/// The statement that updates the row with id `id`.
pub open spec fn update_statement(id: usize, v: DataItemView) -> Seq<char> {
    "\n        UPDATE "@ + "resources"@ + "\n        SET "@ + name_value_text(v)
        + "\n        WHERE ID = "@ + decimal(id as nat) + "\n    "@
}

/// The statement that deletes the row with id `id`.
pub open spec fn delete_statement(id: usize) -> Seq<char> {
    "\n        DELETE FROM "@ + "resources"@ + "\n        WHERE ID = "@ + decimal(id as nat)
        + "\n    "@
}

/// The query for the rows that hold the same torrent: the same id on the same site, which is
/// an address equal to its address (compared with `=`, character for character).
pub open spec fn same_item_query(v: DataItemView) -> Seq<char> {
    "\n        SELECT * from resources where (\n            src_link = '"@ + v.src_link
        + "'\n        );\n    "@
}

impl DataItem {
    /// The statement that adds this torrent to the resources table.
    pub fn to_insert_statement(&self) -> (r: String)
        ensures
            r@ == insert_statement(self@),
    {
        let mut s = String::from_str(
            "\n            INSERT INTO resources (\n                title, desc, \n                finished, download, upload, \n                size, publish_time, last_update,\n                src_link, discount, discount_due\n            ) VALUES (\n                '",
        );
        push_escaped(&mut s, self.title.as_str());
        s.append("', '");
        push_escaped(&mut s, self.desc.as_str());
        s.append("', \n                ");
        push_decimal(&mut s, self.finished as u64);
        s.append(", ");
        push_decimal(&mut s, self.download as u64);
        s.append(", ");
        push_decimal(&mut s, self.upload as u64);
        s.append(", \n                ");
        self.size.push_text(&mut s);
        s.append(", ");
        push_signed_decimal(&mut s, self.publish_time);
        s.append(", ");
        push_signed_decimal(&mut s, self.last_update);
        s.append(",\n                '");
        s.append(self.src_link.as_str());
        s.append("', ");
        push_signed_decimal(&mut s, discount_id(&self.discount) as i64);
        s.append(", ");
        match self.discount_due {
            None => s.append("-1"),
            Some(x) => push_signed_decimal(&mut s, x),
        }
        s.append("\n            )");
        s
    }

    /// The `SET` part of the statement that updates this torrent's row.
    pub fn to_name_value_string(&self) -> (r: String)
        ensures
            r@ == name_value_text(self@),
    {
        let mut s = String::from_str("\n            title = '");
        push_escaped(&mut s, self.title.as_str());
        s.append("',\n            desc = '");
        push_escaped(&mut s, self.desc.as_str());
        s.append("',\n\n            finished = ");
        push_decimal(&mut s, self.finished as u64);
        s.append(",\n            download = ");
        push_decimal(&mut s, self.download as u64);
        s.append(",\n            upload = ");
        push_decimal(&mut s, self.upload as u64);
        s.append(",\n\n            size = ");
        self.size.push_text(&mut s);
        s.append(",\n            publish_time = ");
        push_signed_decimal(&mut s, self.publish_time);
        s.append(",\n            last_update = ");
        push_signed_decimal(&mut s, self.last_update);
        s.append(",\n\n            src_link = '");
        s.append(self.src_link.as_str());
        s.append("',\n\n            discount = ");
        push_signed_decimal(&mut s, discount_id(&self.discount) as i64);
        s.append("\n        ");
        match self.discount_due {
            None => {},
            Some(x) => {
                s.append(", discount_due = ");
                push_signed_decimal(&mut s, x);
            },
        }
        s
    }
}

/// The statement that replaces the row with id `id` by this torrent.
pub fn update_item_statement(id: usize, data: &DataItem) -> (r: String)
    ensures
        r@ == update_statement(id, data@),
{
    let mut s = String::from_str("\n        UPDATE ");
    s.append("resources");
    s.append("\n        SET ");
    let nv = data.to_name_value_string();
    s.append(nv.as_str());
    s.append("\n        WHERE ID = ");
    push_decimal(&mut s, id as u64);
    s.append("\n    ");
    s
}

/// The statement that deletes the row with id `id`.
pub fn delete_item_statement(id: usize) -> (r: String)
    ensures
        r@ == delete_statement(id),
{
    let mut s = String::from_str("\n        DELETE FROM ");
    s.append("resources");
    s.append("\n        WHERE ID = ");
    push_decimal(&mut s, id as u64);
    s.append("\n    ");
    s
}

/// The query for the rows that hold the same torrent: those with the same address.
pub fn same_item_query_text(data: &DataItem) -> (r: String)
    ensures
        r@ == same_item_query(data@),
{
    let mut s = String::from_str("\n        SELECT * from resources where (\n            src_link = '");
    s.append(data.src_link.as_str());
    s.append("'\n        );\n    ");
    s
}

/// Why a row of the resources table could not be read back.
#[derive(Debug, Copy, Clone, PartialEq, Eq, Structural)]
pub enum DecodeError {
    /// A column the table does not have.
    UnknownColumn,
    /// A number column whose text is not a number of its type.
    BadNumber,
    /// A column that is absent or null.
    MissingColumn,
}

/// The columns of a row read so far.
pub struct RowColumns {
    pub title: Option<Seq<char>>,
    pub desc: Option<Seq<char>>,
    pub finished: Option<u32>,
    pub download: Option<u32>,
    pub upload: Option<u32>,
    pub size: Option<SizeGb>,
    pub publish_time: Option<i64>,
    pub last_update: Option<i64>,
    pub src_link: Option<Seq<char>>,
    pub id: Option<usize>,
}

pub open spec fn no_columns() -> RowColumns {
    RowColumns {
        title: None,
        desc: None,
        finished: None,
        download: None,
        upload: None,
        size: None,
        publish_time: None,
        last_update: None,
        src_link: None,
        id: None,
    }
}

/// A number column: null stays null, other text must be a `u32`.
pub open spec fn u32_column(value: Option<Seq<char>>) -> Result<Option<u32>, DecodeError> {
    match value {
        None => Ok(None),
        Some(t) => match parse_unsigned(t, u32::MAX as int) {
            None => Err(DecodeError::BadNumber),
            Some(v) => Ok(Some(v as u32)),
        },
    }
}

/// A time column: null stays null, other text must be an `i64`.
pub open spec fn i64_column(value: Option<Seq<char>>) -> Result<Option<i64>, DecodeError> {
    match value {
        None => Ok(None),
        Some(t) => match parse_signed(t, i64::MAX as int) {
            None => Err(DecodeError::BadNumber),
            Some(v) => Ok(Some(v as i64)),
        },
    }
}

/// The id column: null stays null, other text must be a `usize`.
pub open spec fn id_column(value: Option<Seq<char>>) -> Result<Option<usize>, DecodeError> {
    match value {
        None => Ok(None),
        Some(t) => match parse_unsigned(t, usize::MAX as int) {
            None => Err(DecodeError::BadNumber),
            Some(v) => Ok(Some(v as usize)),
        },
    }
}

/// The size column: null stays null, other text must be a decimal number.
pub open spec fn size_column(value: Option<Seq<char>>) -> Result<Option<SizeGb>, DecodeError> {
    match value {
        None => Ok(None),
        Some(t) => match size_from_text(t) {
            None => Err(DecodeError::BadNumber),
            Some(v) => Ok(Some(v)),
        },
    }
}

/// One column of a row read, by its name; the promotion columns are passed over.
pub open spec fn apply_column(st: RowColumns, name: Seq<char>, value: Option<Seq<char>>) -> Result<RowColumns, DecodeError> {
    if name == "title"@ {
        Ok(RowColumns { title: value, ..st })
    } else if name == "desc"@ {
        Ok(RowColumns { desc: value, ..st })
    } else if name == "finished"@ {
        match u32_column(value) {
            Err(e) => Err(e),
            Ok(v) => Ok(RowColumns { finished: v, ..st }),
        }
    } else if name == "download"@ {
        match u32_column(value) {
            Err(e) => Err(e),
            Ok(v) => Ok(RowColumns { download: v, ..st }),
        }
    } else if name == "upload"@ {
        match u32_column(value) {
            Err(e) => Err(e),
            Ok(v) => Ok(RowColumns { upload: v, ..st }),
        }
    } else if name == "size"@ {
        match size_column(value) {
            Err(e) => Err(e),
            Ok(v) => Ok(RowColumns { size: v, ..st }),
        }
    } else if name == "publish_time"@ {
        match i64_column(value) {
            Err(e) => Err(e),
            Ok(v) => Ok(RowColumns { publish_time: v, ..st }),
        }
    } else if name == "last_update"@ {
        match i64_column(value) {
            Err(e) => Err(e),
            Ok(v) => Ok(RowColumns { last_update: v, ..st }),
        }
    } else if name == "src_link"@ {
        Ok(RowColumns { src_link: value, ..st })
    } else if name == "ID"@ {
        match id_column(value) {
            Err(e) => Err(e),
            Ok(v) => Ok(RowColumns { id: v, ..st }),
        }
    } else if name == "discount"@ || name == "discount_due"@ {
        Ok(st)
    } else {
        Err(DecodeError::UnknownColumn)
    }
}

/// The first `n` columns of a row read in order.
pub open spec fn columns_fold(pairs: Seq<(Seq<char>, Option<Seq<char>>)>, n: nat) -> Result<RowColumns, DecodeError>
    decreases n,
{
    if n == 0 {
        Ok(no_columns())
    } else {
        match columns_fold(pairs, (n - 1) as nat) {
            Err(e) => Err(e),
            Ok(st) => apply_column(st, pairs[n - 1].0, pairs[n - 1].1),
        }
    }
}

/// The id and the torrent of a row whose every column has been read; the promotion is not read
/// back.
pub open spec fn row_of_columns(st: RowColumns) -> Result<(usize, DataItemView), DecodeError> {
    if st.title is Some && st.desc is Some && st.finished is Some && st.download is Some
        && st.upload is Some && st.size is Some && st.publish_time is Some
        && st.last_update is Some && st.src_link is Some && st.id is Some {
        Ok(
            (
                st.id->0,
                DataItemView {
                    title: st.title->0,
                    desc: st.desc->0,
                    finished: st.finished->0,
                    download: st.download->0,
                    upload: st.upload->0,
                    size: st.size->0,
                    publish_time: st.publish_time->0,
                    last_update: st.last_update->0,
                    src_link: st.src_link->0,
                    discount: None,
                    discount_due: None,
                },
            ),
        )
    } else {
        Err(DecodeError::MissingColumn)
    }
}

/// The id and the torrent that a row of the resources table holds, given as name and value
/// pairs (null as `None`).
pub open spec fn decode_row(pairs: Seq<(Seq<char>, Option<Seq<char>>)>) -> Result<(usize, DataItemView), DecodeError> {
    match columns_fold(pairs, pairs.len()) {
        Err(e) => Err(e),
        Ok(st) => row_of_columns(st),
    }
}

/// A row of the table for a torrent stored with id `id`, in the order of the table's columns,
/// where each column holds the text that the insert statement wrote for it. SQLite hands back
/// its own rendering of a number column, which need not be this text: a `REAL` size written as
/// `2000` comes back as `2000.0`. This row holds the library's own texts; it is no model of
/// SQLite.
pub open spec fn written_row(id: usize, v: DataItemView) -> Seq<(Seq<char>, Option<Seq<char>>)> {
    seq![
        ("ID"@, Some(decimal(id as nat))),
        ("title"@, Some(v.title)),
        ("desc"@, Some(v.desc)),
        ("src_link"@, Some(v.src_link)),
        ("finished"@, Some(decimal(v.finished as nat))),
        ("download"@, Some(decimal(v.download as nat))),
        ("upload"@, Some(decimal(v.upload as nat))),
        ("size"@, Some(size_text(v.size))),
        ("publish_time"@, Some(signed_decimal(v.publish_time as int))),
        ("last_update"@, Some(signed_decimal(v.last_update as int))),
        ("discount"@, Some(signed_decimal(discount_code(v.discount) as int))),
        ("discount_due"@, Some(due_text(v.discount_due))),
    ]
}

proof fn lemma_fold_step(
    pairs: Seq<(Seq<char>, Option<Seq<char>>)>,
    k: nat,
    st: RowColumns,
    next: RowColumns,
)
    requires
        k < pairs.len(),
        columns_fold(pairs, k) == Ok::<RowColumns, DecodeError>(st),
        apply_column(st, pairs[k as int].0, pairs[k as int].1) == Ok::<RowColumns, DecodeError>(next),
    ensures
        columns_fold(pairs, k + 1) == Ok::<RowColumns, DecodeError>(next),
{
}

/// The column names of the resources table differ from one another.
proof fn lemma_row_names()
    ensures
        "ID"@ != "title"@ && "ID"@ != "desc"@ && "ID"@ != "finished"@ && "ID"@ != "download"@
            && "ID"@ != "upload"@ && "ID"@ != "size"@ && "ID"@ != "publish_time"@
            && "ID"@ != "last_update"@ && "ID"@ != "src_link"@,
        "desc"@ != "title"@,
        "src_link"@ != "title"@ && "src_link"@ != "desc"@ && "src_link"@ != "finished"@
            && "src_link"@ != "download"@ && "src_link"@ != "upload"@ && "src_link"@ != "size"@
            && "src_link"@ != "publish_time"@ && "src_link"@ != "last_update"@,
        "finished"@ != "title"@ && "finished"@ != "desc"@,
        "download"@ != "title"@ && "download"@ != "desc"@ && "download"@ != "finished"@,
        "upload"@ != "title"@ && "upload"@ != "desc"@ && "upload"@ != "finished"@
            && "upload"@ != "download"@,
        "size"@ != "title"@ && "size"@ != "desc"@ && "size"@ != "finished"@
            && "size"@ != "download"@ && "size"@ != "upload"@,
        "publish_time"@ != "title"@ && "publish_time"@ != "desc"@ && "publish_time"@ != "finished"@
            && "publish_time"@ != "download"@ && "publish_time"@ != "upload"@
            && "publish_time"@ != "size"@,
        "last_update"@ != "title"@ && "last_update"@ != "desc"@ && "last_update"@ != "finished"@
            && "last_update"@ != "download"@ && "last_update"@ != "upload"@
            && "last_update"@ != "size"@ && "last_update"@ != "publish_time"@,
        "discount"@ != "title"@ && "discount"@ != "desc"@ && "discount"@ != "finished"@
            && "discount"@ != "download"@ && "discount"@ != "upload"@ && "discount"@ != "size"@
            && "discount"@ != "publish_time"@ && "discount"@ != "last_update"@
            && "discount"@ != "src_link"@ && "discount"@ != "ID"@,
        "discount_due"@ != "title"@ && "discount_due"@ != "desc"@ && "discount_due"@ != "finished"@
            && "discount_due"@ != "download"@ && "discount_due"@ != "upload"@
            && "discount_due"@ != "size"@ && "discount_due"@ != "publish_time"@
            && "discount_due"@ != "last_update"@ && "discount_due"@ != "src_link"@
            && "discount_due"@ != "ID"@ && "discount_due"@ != "discount"@,
{
    reveal_strlit("ID");
    reveal_strlit("title");
    reveal_strlit("desc");
    reveal_strlit("src_link");
    reveal_strlit("finished");
    reveal_strlit("download");
    reveal_strlit("upload");
    reveal_strlit("size");
    reveal_strlit("publish_time");
    reveal_strlit("last_update");
    reveal_strlit("discount");
    reveal_strlit("discount_due");
    assert("ID"@.len() != "title"@.len());
    assert("desc"@[0] != "title"@[0]);
    assert("src_link"@[0] != "title"@[0]);
    assert("finished"@[0] != "title"@[0]);
    assert("download"@[0] != "title"@[0]);
    assert("upload"@[0] != "title"@[0]);
    assert("size"@[0] != "title"@[0]);
    assert("publish_time"@[0] != "title"@[0]);
    assert("last_update"@[0] != "title"@[0]);
    assert("discount"@[0] != "title"@[0]);
    assert("discount_due"@[0] != "title"@[0]);
    assert("ID"@[0] != "desc"@[0]);
    assert("ID"@[0] != "finished"@[0]);
    assert("ID"@[0] != "download"@[0]);
    assert("ID"@[0] != "upload"@[0]);
    assert("ID"@[0] != "size"@[0]);
    assert("ID"@[0] != "publish_time"@[0]);
    assert("ID"@[0] != "last_update"@[0]);
    assert("ID"@[0] != "src_link"@[0]);
    assert("src_link"@.len() != "desc"@.len());
    assert("src_link"@[0] != "finished"@[0]);
    assert("src_link"@[0] != "download"@[0]);
    assert("src_link"@[0] != "upload"@[0]);
    assert("src_link"@[1] != "size"@[1]);
    assert("src_link"@[0] != "publish_time"@[0]);
    assert("src_link"@[0] != "last_update"@[0]);
    assert("finished"@[0] != "desc"@[0]);
    assert("download"@[1] != "desc"@[1]);
    assert("download"@[0] != "finished"@[0]);
    assert("upload"@[0] != "desc"@[0]);
    assert("upload"@[0] != "finished"@[0]);
    assert("upload"@[0] != "download"@[0]);
    assert("size"@[0] != "desc"@[0]);
    assert("size"@[0] != "finished"@[0]);
    assert("size"@[0] != "download"@[0]);
    assert("size"@[0] != "upload"@[0]);
    assert("publish_time"@[0] != "desc"@[0]);
    assert("publish_time"@[0] != "finished"@[0]);
    assert("publish_time"@[0] != "download"@[0]);
    assert("publish_time"@[0] != "upload"@[0]);
    assert("publish_time"@[0] != "size"@[0]);
    assert("last_update"@[0] != "desc"@[0]);
    assert("last_update"@[0] != "finished"@[0]);
    assert("last_update"@[0] != "download"@[0]);
    assert("last_update"@[0] != "upload"@[0]);
    assert("last_update"@[0] != "size"@[0]);
    assert("last_update"@[0] != "publish_time"@[0]);
    assert("discount"@[1] != "desc"@[1]);
    assert("discount"@[0] != "finished"@[0]);
    assert("discount"@[1] != "download"@[1]);
    assert("discount"@[0] != "upload"@[0]);
    assert("discount"@[0] != "size"@[0]);
    assert("discount"@[0] != "publish_time"@[0]);
    assert("discount"@[0] != "last_update"@[0]);
    assert("discount"@[0] != "src_link"@[0]);
    assert("discount"@[0] != "ID"@[0]);
    assert("discount_due"@[1] != "desc"@[1]);
    assert("discount_due"@[0] != "finished"@[0]);
    assert("discount_due"@[1] != "download"@[1]);
    assert("discount_due"@[0] != "upload"@[0]);
    assert("discount_due"@[0] != "size"@[0]);
    assert("discount_due"@[0] != "publish_time"@[0]);
    assert("discount_due"@[0] != "last_update"@[0]);
    assert("discount_due"@[0] != "src_link"@[0]);
    assert("discount_due"@[0] != "ID"@[0]);
    assert("discount_due"@.len() != "discount"@.len());
}

/// Reading back a row that holds the texts the insert statement wrote gives the same id and the
/// same torrent, with the same size in gigabytes; the promotion is not read back.
pub proof fn lemma_row_reads_back(id: usize, v: DataItemView)
    requires
        text_readable(v.size),
    ensures
        decode_row(written_row(id, v)) matches Ok((back_id, back)) && back_id == id
            && back.title == v.title && back.desc == v.desc && back.src_link == v.src_link
            && back.finished == v.finished && back.download == v.download
            && back.upload == v.upload && same_size(back.size, v.size)
            && back.publish_time == v.publish_time && back.last_update == v.last_update
            && back.discount is None && back.discount_due is None,
{
    lemma_row_names();
    let pairs = written_row(id, v);
    lemma_parse_decimal(id as nat, usize::MAX as int);
    lemma_parse_decimal(v.finished as nat, u32::MAX as int);
    lemma_parse_decimal(v.download as nat, u32::MAX as int);
    lemma_parse_decimal(v.upload as nat, u32::MAX as int);
    lemma_parse_signed_decimal(v.publish_time as int, i64::MAX as int);
    lemma_parse_signed_decimal(v.last_update as int, i64::MAX as int);
    lemma_size_text_reads_back(v.size);
    let back_size = size_from_text(size_text(v.size))->0;
    let s0 = no_columns();
    let s1 = RowColumns { id: Some(id), ..s0 };
    let s2 = RowColumns { title: Some(v.title), ..s1 };
    let s3 = RowColumns { desc: Some(v.desc), ..s2 };
    let s4 = RowColumns { src_link: Some(v.src_link), ..s3 };
    let s5 = RowColumns { finished: Some(v.finished), ..s4 };
    let s6 = RowColumns { download: Some(v.download), ..s5 };
    let s7 = RowColumns { upload: Some(v.upload), ..s6 };
    let s8 = RowColumns { size: Some(back_size), ..s7 };
    let s9 = RowColumns { publish_time: Some(v.publish_time), ..s8 };
    let s10 = RowColumns { last_update: Some(v.last_update), ..s9 };
    assert(pairs.len() == 12);
    assert(columns_fold(pairs, 0) == Ok::<RowColumns, DecodeError>(s0));
    lemma_fold_step(pairs, 0, s0, s1);
    lemma_fold_step(pairs, 1, s1, s2);
    lemma_fold_step(pairs, 2, s2, s3);
    lemma_fold_step(pairs, 3, s3, s4);
    lemma_fold_step(pairs, 4, s4, s5);
    lemma_fold_step(pairs, 5, s5, s6);
    lemma_fold_step(pairs, 6, s6, s7);
    lemma_fold_step(pairs, 7, s7, s8);
    lemma_fold_step(pairs, 8, s8, s9);
    lemma_fold_step(pairs, 9, s9, s10);
    lemma_fold_step(pairs, 10, s10, s10);
    lemma_fold_step(pairs, 11, s10, s10);
}

pub open spec fn opt_view(v: Option<&str>) -> Option<Seq<char>> {
    match v {
        Some(t) => Some(t@),
        None => None,
    }
}

pub open spec fn pairs_view(nvs: Seq<(&str, Option<&str>)>) -> Seq<(Seq<char>, Option<Seq<char>>)> {
    nvs.map_values(|p: (&str, Option<&str>)| (p.0@, opt_view(p.1)))
}

struct Columns {
    title: Option<String>,
    desc: Option<String>,
    finished: Option<u32>,
    download: Option<u32>,
    upload: Option<u32>,
    size: Option<SizeGb>,
    publish_time: Option<i64>,
    last_update: Option<i64>,
    src_link: Option<String>,
    id: Option<usize>,
}

impl Columns {
    spec fn view_of(&self) -> RowColumns {
        RowColumns {
            title: match self.title {
                Some(s) => Some(s@),
                None => None,
            },
            desc: match self.desc {
                Some(s) => Some(s@),
                None => None,
            },
            finished: self.finished,
            download: self.download,
            upload: self.upload,
            size: self.size,
            publish_time: self.publish_time,
            last_update: self.last_update,
            src_link: match self.src_link {
                Some(s) => Some(s@),
                None => None,
            },
            id: self.id,
        }
    }
}

fn owned(v: Option<&str>) -> (r: Option<String>)
    ensures
        match r {
            Some(s) => opt_view(v) == Some(s@),
            None => opt_view(v) is None,
        },
{
    match v {
        Some(t) => Some(String::from_str(t)),
        None => None,
    }
}

fn u32_value(v: Option<&str>) -> (r: Result<Option<u32>, DecodeError>)
    ensures
        r == u32_column(opt_view(v)),
{
    match v {
        None => Ok(None),
        Some(t) => match parse_u32(t) {
            None => Err(DecodeError::BadNumber),
            Some(x) => Ok(Some(x)),
        },
    }
}

fn i64_value(v: Option<&str>) -> (r: Result<Option<i64>, DecodeError>)
    ensures
        r == i64_column(opt_view(v)),
{
    match v {
        None => Ok(None),
        Some(t) => match parse_i64(t) {
            None => Err(DecodeError::BadNumber),
            Some(x) => Ok(Some(x)),
        },
    }
}

fn id_value(v: Option<&str>) -> (r: Result<Option<usize>, DecodeError>)
    ensures
        r == id_column(opt_view(v)),
{
    match v {
        None => Ok(None),
        Some(t) => match parse_usize(t) {
            None => Err(DecodeError::BadNumber),
            Some(x) => Ok(Some(x)),
        },
    }
}

fn size_value(v: Option<&str>) -> (r: Result<Option<SizeGb>, DecodeError>)
    ensures
        r == size_column(opt_view(v)),
{
    match v {
        None => Ok(None),
        Some(t) => match parse_size(t) {
            None => Err(DecodeError::BadNumber),
            Some(x) => Ok(Some(x)),
        },
    }
}

fn apply_column_of(st: Columns, name: &str, value: Option<&str>) -> (r: Result<Columns, DecodeError>)
    ensures
        match r {
            Ok(c) => apply_column(st.view_of(), name@, opt_view(value)) == Ok::<RowColumns, DecodeError>(c.view_of()),
            Err(e) => apply_column(st.view_of(), name@, opt_view(value)) == Err::<RowColumns, DecodeError>(e),
        },
{
    let mut st = st;
    if str_eq(name, "title") {
        st.title = owned(value);
    } else if str_eq(name, "desc") {
        st.desc = owned(value);
    } else if str_eq(name, "finished") {
        match u32_value(value) {
            Err(e) => return Err(e),
            Ok(v) => st.finished = v,
        }
    } else if str_eq(name, "download") {
        match u32_value(value) {
            Err(e) => return Err(e),
            Ok(v) => st.download = v,
        }
    } else if str_eq(name, "upload") {
        match u32_value(value) {
            Err(e) => return Err(e),
            Ok(v) => st.upload = v,
        }
    } else if str_eq(name, "size") {
        match size_value(value) {
            Err(e) => return Err(e),
            Ok(v) => st.size = v,
        }
    } else if str_eq(name, "publish_time") {
        match i64_value(value) {
            Err(e) => return Err(e),
            Ok(v) => st.publish_time = v,
        }
    } else if str_eq(name, "last_update") {
        match i64_value(value) {
            Err(e) => return Err(e),
            Ok(v) => st.last_update = v,
        }
    } else if str_eq(name, "src_link") {
        st.src_link = owned(value);
    } else if str_eq(name, "ID") {
        match id_value(value) {
            Err(e) => return Err(e),
            Ok(v) => st.id = v,
        }
    } else if str_eq(name, "discount") || str_eq(name, "discount_due") {
    } else {
        return Err(DecodeError::UnknownColumn);
    }
    Ok(st)
}

proof fn lemma_columns_fold_err(pairs: Seq<(Seq<char>, Option<Seq<char>>)>, i: nat, n: nat, e: DecodeError)
    requires
        i <= n,
        columns_fold(pairs, i) == Err::<RowColumns, DecodeError>(e),
    ensures
        columns_fold(pairs, n) == Err::<RowColumns, DecodeError>(e),
    decreases n - i,
{
    if i < n {
        lemma_columns_fold_err(pairs, i, (n - 1) as nat, e);
    }
}

impl DataItem {
    /// Reads back a row of the resources table, given as the name and value pairs that SQLite
    /// hands out (null as `None`): its id and its torrent, without its promotion. A column the
    /// table does not have, a missing or null column, or a value that is not a number of its
    /// column's type gives an error in place of a panic; the program stops on it.
    pub fn from_name_value_pairs(nvs: &[(&str, Option<&str>)]) -> (r: Result<(usize, DataItem), DecodeError>)
        ensures
            match r {
                Ok((id, item)) => decode_row(pairs_view(nvs@)) == Ok::<(usize, DataItemView), DecodeError>((id, item@)),
                Err(e) => decode_row(pairs_view(nvs@)) == Err::<(usize, DataItemView), DecodeError>(e),
            },
    {
        let ghost pairs = pairs_view(nvs@);
        let mut st = Columns {
            title: None,
            desc: None,
            finished: None,
            download: None,
            upload: None,
            size: None,
            publish_time: None,
            last_update: None,
            src_link: None,
            id: None,
        };
        let mut i: usize = 0;
        while i < nvs.len()
            invariant
                i <= nvs.len(),
                pairs == pairs_view(nvs@),
                columns_fold(pairs, i as nat) == Ok::<RowColumns, DecodeError>(st.view_of()),
            decreases nvs.len() - i,
        {
            let (name, value) = nvs[i];
            assert(pairs[i as int] == (name@, opt_view(value)));
            match apply_column_of(st, name, value) {
                Err(e) => {
                    proof {
                        lemma_columns_fold_err(pairs, (i + 1) as nat, nvs.len() as nat, e);
                    }
                    return Err(e);
                },
                Ok(next) => {
                    st = next;
                },
            }
            i = i + 1;
        }
        match (st.title, st.desc, st.finished, st.download, st.upload, st.size, st.publish_time, st.last_update, st.src_link, st.id) {
            (Some(title), Some(desc), Some(finished), Some(download), Some(upload), Some(size), Some(publish_time), Some(last_update), Some(src_link), Some(id)) => {
                Ok((id, DataItem {
                    title,
                    desc,
                    finished,
                    download,
                    upload,
                    size,
                    publish_time,
                    last_update,
                    src_link,
                    discount: None,
                    discount_due: None,
                }))
            },
            _ => Err(DecodeError::MissingColumn),
        }
    }
}

/// `s` starts with `head`, then holds a quoted SQL string that SQL reads as `first`, then
/// `middle`, then a quoted SQL string that SQL reads as `second`.
pub open spec fn two_sql_strings(s: Seq<char>, head: Seq<char>, first: Seq<char>, middle: Seq<char>, second: Seq<char>) -> bool {
    s.len() >= head.len() && s.take(head.len() as int) == head && match sql_quoted(s.skip(head.len() as int)) {
        Some((a, r)) => a == first && r.len() >= middle.len() && r.take(middle.len() as int) == middle
            && match sql_quoted(r.skip(middle.len() as int)) {
            Some((b, _)) => b == second,
            None => false,
        },
        None => false,
    }
}

proof fn lemma_two_strings(head: Seq<char>, t: Seq<char>, m: Seq<char>, d: Seq<char>, r: Seq<char>, x: Seq<char>)
    requires
        m.len() > 0 && m[0] != '\'',
        r.len() > 0 && r[0] != '\'',
    ensures
        two_sql_strings(
            head + escape_quotes(t) + (seq!['\''] + m) + escape_quotes(d) + (seq!['\''] + r) + x,
            head,
            t,
            m,
            d,
        ),
{
    let s = head + escape_quotes(t) + (seq!['\''] + m) + escape_quotes(d) + (seq!['\''] + r) + x;
    let r1 = m + escape_quotes(d) + seq!['\''] + (r + x);
    assert(s.take(head.len() as int) =~= head);
    assert(s.skip(head.len() as int) =~= escape_quotes(t) + seq!['\''] + r1);
    lemma_sql_reads_escaped(t, r1);
    assert(r1.take(m.len() as int) =~= m);
    assert(r1.skip(m.len() as int) =~= escape_quotes(d) + seq!['\''] + (r + x));
    lemma_sql_reads_escaped(d, r + x);
}

/// In the statement that adds a torrent, the title and the description stand as quoted SQL
/// strings that SQL reads back as the torrent's title and description, whatever quotes they hold.
pub proof fn lemma_insert_quotes_title_and_desc(v: DataItemView)
    ensures
        two_sql_strings(
            insert_statement(v),
            "\n            INSERT INTO resources (\n                title, desc, \n                finished, download, upload, \n                size, publish_time, last_update,\n                src_link, discount, discount_due\n            ) VALUES (\n                '"@,
            v.title,
            ", '"@,
            v.desc,
        ),
{
    let head = "\n            INSERT INTO resources (\n                title, desc, \n                finished, download, upload, \n                size, publish_time, last_update,\n                src_link, discount, discount_due\n            ) VALUES (\n                '"@;
    reveal_strlit("', '");
    reveal_strlit(", '");
    reveal_strlit("', \n                ");
    reveal_strlit(", \n                ");
    let m = ", '"@;
    let r = ", \n                "@;
    assert("', '"@ =~= seq!['\''] + m);
    assert("', \n                "@ =~= seq!['\''] + r);
    let s = insert_statement(v);
    let p = head + escape_quotes(v.title) + "', '"@ + escape_quotes(v.desc) + "', \n                "@;
    let x = s.skip(p.len() as int);
    assert(s =~= p + x);
    assert(p + x =~= head + escape_quotes(v.title) + (seq!['\''] + m) + escape_quotes(v.desc) + (seq!['\''] + r) + x);
    lemma_two_strings(head, v.title, m, v.desc, r, x);
}

/// In the `SET` part of the statement that updates a torrent's row, the title and the
/// description stand as quoted SQL strings that SQL reads back as the torrent's title and
/// description, whatever quotes they hold.
pub proof fn lemma_update_quotes_title_and_desc(v: DataItemView)
    ensures
        two_sql_strings(name_value_text(v), "\n            title = '"@, v.title, ",\n            desc = '"@, v.desc),
{
    let head = "\n            title = '"@;
    reveal_strlit("',\n            desc = '");
    reveal_strlit(",\n            desc = '");
    reveal_strlit("',\n\n            finished = ");
    reveal_strlit(",\n\n            finished = ");
    let m = ",\n            desc = '"@;
    let r = ",\n\n            finished = "@;
    assert("',\n            desc = '"@ =~= seq!['\''] + m);
    assert("',\n\n            finished = "@ =~= seq!['\''] + r);
    let s = name_value_text(v);
    let p = head + escape_quotes(v.title) + "',\n            desc = '"@ + escape_quotes(v.desc) + "',\n\n            finished = "@;
    let x = s.skip(p.len() as int);
    assert(s =~= p + x);
    assert(p + x =~= head + escape_quotes(v.title) + (seq!['\''] + m) + escape_quotes(v.desc) + (seq!['\''] + r) + x);
    lemma_two_strings(head, v.title, m, v.desc, r, x);
}

/// The promotion codes of the table: -1 for none, 0 for double free, 1 for free, 2 for any
/// other promotion.
pub proof fn lemma_discount_codes()
    ensures
        discount_code(None) == -1,
        discount_code(Some(Discount::DoubleFree)) == 0,
        discount_code(Some(Discount::Free)) == 1,
        discount_code(Some(Discount::R25)) == 2,
        discount_code(Some(Discount::FiftyPerOff)) == 2,
{
}

/// The statement that adds a torrent ends with its promotion code (the one `discount_id`
/// gives), then the end of its promotion (-1 for none), after the closing quote of its address.
pub proof fn lemma_insert_ends_with_promotion(v: DataItemView)
    ensures
        ({
            let s = insert_statement(v);
            let tail = "', "@ + signed_decimal(discount_code(v.discount) as int) + ", "@ + due_text(
                v.discount_due,
            ) + "\n            )"@;
            s.len() >= tail.len() && s.skip(s.len() - tail.len()) == tail
        }),
{
    let s = insert_statement(v);
    let tail = "', "@ + signed_decimal(discount_code(v.discount) as int) + ", "@ + due_text(v.discount_due)
        + "\n            )"@;
    let p = s.take(s.len() - tail.len());
    assert(s =~= p + tail);
    assert(s.skip(s.len() - tail.len()) =~= tail);
}

/// The `SET` part of the statement that updates a torrent's row sets `discount` to its
/// promotion code (the one `discount_id` gives).
pub proof fn lemma_update_sets_promotion(v: DataItemView)
    ensures
        exists|k: int|
            0 <= k <= name_value_text(v).len() && #[trigger] name_value_text(v).skip(k).take(
                ("discount = "@ + signed_decimal(discount_code(v.discount) as int) + "\n        "@).len() as int,
            ) == "discount = "@ + signed_decimal(discount_code(v.discount) as int) + "\n        "@,
{
    reveal_strlit("',\n\n            discount = ");
    reveal_strlit("discount = ");
    let s = name_value_text(v);
    let mid = "discount = "@ + signed_decimal(discount_code(v.discount) as int) + "\n        "@;
    let due = match v.discount_due {
        None => Seq::<char>::empty(),
        Some(x) => ", discount_due = "@ + signed_decimal(x as int),
    };
    let k = s.len() - due.len() - mid.len();
    assert(s.skip(s.len() - due.len()) =~= due);
    assert("',\n\n            discount = "@ =~= "',\n\n            "@ + "discount = "@) by {
        reveal_strlit("',\n\n            ");
    }
    assert(s.skip(k).take(mid.len() as int) =~= mid);
}

} // verus!
