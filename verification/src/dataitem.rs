//! One torrent of a listing, as the resources table keeps it.
use crate::clock::now_timestamp;
use crate::ptsite::Discount;
use crate::size::SizeGb;
use vstd::prelude::*;
use vstd::string::StringExecFns;

verus! {

/// A torrent as listed by a site.
#[derive(Debug)]
pub struct DataItem {
    pub title: String,
    pub desc: String,
    pub finished: u32,
    pub download: u32,
    pub upload: u32,
    /// In gigabytes.
    pub size: SizeGb,
    pub publish_time: i64,
    pub last_update: i64,
    pub src_link: String,
    pub discount: Option<Discount>,
    pub discount_due: Option<i64>,
}

/// A torrent with its texts as sequences of characters.
pub struct DataItemView {
    pub title: Seq<char>,
    pub desc: Seq<char>,
    pub finished: u32,
    pub download: u32,
    pub upload: u32,
    pub size: SizeGb,
    pub publish_time: i64,
    pub last_update: i64,
    pub src_link: Seq<char>,
    pub discount: Option<Discount>,
    pub discount_due: Option<i64>,
}

impl View for DataItem {
    type V = DataItemView;

    open spec fn view(&self) -> DataItemView {
        DataItemView {
            title: self.title@,
            desc: self.desc@,
            finished: self.finished,
            download: self.download,
            upload: self.upload,
            size: self.size,
            publish_time: self.publish_time,
            last_update: self.last_update,
            src_link: self.src_link@,
            discount: self.discount,
            discount_due: self.discount_due,
        }
    }
}

/// The item with its time of update set to `t`.
pub open spec fn updated_at(v: DataItemView, t: i64) -> DataItemView {
    DataItemView {
        title: v.title,
        desc: v.desc,
        finished: v.finished,
        download: v.download,
        upload: v.upload,
        size: v.size,
        publish_time: v.publish_time,
        last_update: t,
        src_link: v.src_link,
        discount: v.discount,
        discount_due: v.discount_due,
    }
}

impl DataItem {
    /// A torrent as listed, stamped with the current time as its time of update.
    pub fn new(
        title: &str,
        desc: &str,
        finished: u32,
        download: u32,
        upload: u32,
        size: SizeGb,
        publish_time: i64,
        src_link: &str,
        discount: Option<Discount>,
        discount_due: Option<i64>,
    ) -> (r: DataItem)
        ensures
            r@ == (DataItemView {
                title: title@,
                desc: desc@,
                finished,
                download,
                upload,
                size,
                publish_time,
                last_update: r.last_update,
                src_link: src_link@,
                discount,
                discount_due,
            }),
    {
        let now = now_timestamp();
        DataItem {
            title: String::from_str(title),
            desc: String::from_str(desc),
            finished,
            download,
            upload,
            size,
            publish_time,
            last_update: now,
            src_link: String::from_str(src_link),
            discount,
            discount_due,
        }
    }
}

} // verus!
