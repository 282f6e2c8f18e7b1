//! The trackers this crate knows: their names, home pages, listing pages and cookie files.
use crate::text::{
    all_digits, ascii_lower, decimal, lemma_parse_decimal, parse_unsigned, push_decimal, str_eq,
    to_ascii_lowercase,
};
use vstd::prelude::*;
use vstd::string::StringExecFns;

verus! {

/// The time zone of the trackers' listings, as written after a local time.
pub open spec fn time_zone_text() -> Seq<char> {
    "+08:00"@
}

/// The private trackers this crate knows.
#[derive(Debug, Copy, Clone, PartialEq, Eq, Structural)]
pub enum Site {
    OKPT,
    ICC2022,
    PTTIME,
    GGPT,
    CARPT,
}

/// The promotion a torrent is under.
#[derive(Debug, Copy, Clone, PartialEq, Eq, Structural)]
pub enum Discount {
    DoubleFree,
    Free,
    R25,
    FiftyPerOff,
}

pub open spec fn okpt_listing() -> Seq<char> {
    "https://www.okpt.net/torrents.php?inclbookmarked=0&incldead=1&spstate=0&page="@
}

pub open spec fn icc2022_listing() -> Seq<char> {
    "https://www.icc2022.com/torrents.php?inclbookmarked=0&incldead=1&spstate=0&cat409=1&cat405=1&cat404=1&cat401=1&page="@
}

pub open spec fn ggpt_listing() -> Seq<char> {
    "https://www.gamegamept.com/torrents.php?inclbookmarked=0&incldead=1&spstate=0&page="@
}

pub open spec fn carpt_listing() -> Seq<char> {
    "https://carpt.net/torrents.php?inclbookmarked=0&incldead=1&spstate=0&cat401=1&cat402=1&cat403=1&cat404=1&cat405=1&cat407=1&page="@
}

pub open spec fn pttime_listing() -> Seq<char> {
    "https://www.pttime.org/torrents.php?inclbookmarked=0&incldead=1&spstate=0&page="@
}

/// The address of listing page `page` of OKPT.
pub fn okpt_url_by_page(page: u32) -> (r: String)
    ensures
        r@ == okpt_listing() + decimal(page as nat),
{
    let mut s = String::from_str(
        "https://www.okpt.net/torrents.php?inclbookmarked=0&incldead=1&spstate=0&page=",
    );
    push_decimal(&mut s, page as u64);
    s
}

/// The address of listing page `page` of ICC2022, restricted to its four categories.
pub fn icc2022_url_by_page(page: u32) -> (r: String)
    ensures
        r@ == icc2022_listing() + decimal(page as nat),
{
    let mut s = String::from_str(
        "https://www.icc2022.com/torrents.php?inclbookmarked=0&incldead=1&spstate=0&cat409=1&cat405=1&cat404=1&cat401=1&page=",
    );
    push_decimal(&mut s, page as u64);
    s
}

/// The address of listing page `page` of GGPT.
pub fn ggpt_url_by_page(page: u32) -> (r: String)
    ensures
        r@ == ggpt_listing() + decimal(page as nat),
{
    let mut s = String::from_str(
        "https://www.gamegamept.com/torrents.php?inclbookmarked=0&incldead=1&spstate=0&page=",
    );
    push_decimal(&mut s, page as u64);
    s
}

/// The address of listing page `page` of CarPT, restricted to its six categories.
pub fn carpt_url_by_page(page: u32) -> (r: String)
    ensures
        r@ == carpt_listing() + decimal(page as nat),
{
    let mut s = String::from_str(
        "https://carpt.net/torrents.php?inclbookmarked=0&incldead=1&spstate=0&cat401=1&cat402=1&cat403=1&cat404=1&cat405=1&cat407=1&page=",
    );
    push_decimal(&mut s, page as u64);
    s
}

/// The address of listing page `page` of PTTime.
pub fn pttime_url_by_page(page: u32) -> (r: String)
    ensures
        r@ == pttime_listing() + decimal(page as nat),
{
    let mut s = String::from_str(
        "https://www.pttime.org/torrents.php?inclbookmarked=0&incldead=1&spstate=0&page=",
    );
    push_decimal(&mut s, page as u64);
    s
}

/// The home page of a site, with its final slash.
pub open spec fn site_home(site: Site) -> Seq<char> {
    match site {
        Site::OKPT => "https://www.okpt.net/"@,
        Site::ICC2022 => "https://www.icc2022.com/"@,
        Site::GGPT => "https://www.gamegamept.com/"@,
        Site::CARPT => "https://carpt.net/"@,
        Site::PTTIME => "https://www.pttime.org/"@,
    }
}

/// The name of a site as its variant is written.
pub open spec fn site_name(site: Site) -> Seq<char> {
    match site {
        Site::OKPT => "OKPT"@,
        Site::ICC2022 => "ICC2022"@,
        Site::PTTIME => "PTTIME"@,
        Site::GGPT => "GGPT"@,
        Site::CARPT => "CARPT"@,
    }
}

/// The site that a name stands for, whatever the case of its ASCII letters.
pub open spec fn site_named(s: Seq<char>) -> Option<Site> {
    let l = ascii_lower(s);
    if l == "icc2022"@ || l == "icc"@ {
        Some(Site::ICC2022)
    } else if l == "okpt"@ {
        Some(Site::OKPT)
    } else if l == "ggpt"@ {
        Some(Site::GGPT)
    } else if l == "carpt"@ {
        Some(Site::CARPT)
    } else if l == "pttime"@ {
        Some(Site::PTTIME)
    } else {
        None
    }
}

/// Where the cookies of a site are kept.
pub open spec fn cookie_file(site: Site) -> Seq<char> {
    "./config/"@ + ascii_lower(site_name(site)) + ".cookies"@
}

impl Site {
    /// The home page of the site.
    pub fn url_site(&self) -> (r: String)
        ensures
            r@ == site_home(*self),
    {
        let res = match self {
            Site::OKPT => "https://www.okpt.net/",
            Site::ICC2022 => "https://www.icc2022.com/",
            Site::GGPT => "https://www.gamegamept.com/",
            Site::CARPT => "https://carpt.net/",
            Site::PTTIME => "https://www.pttime.org/",
        };
        String::from_str(res)
    }

    /// The name of the site as its variant is written, such as `OKPT`.
    pub fn to_string(&self) -> (r: String)
        ensures
            r@ == site_name(*self),
    {
        let res = match self {
            Site::OKPT => "OKPT",
            Site::ICC2022 => "ICC2022",
            Site::PTTIME => "PTTIME",
            Site::GGPT => "GGPT",
            Site::CARPT => "CARPT",
        };
        String::from_str(res)
    }

    /// Reads a site name, ignoring the case of ASCII letters; `icc` also names ICC2022.
    pub fn from_str(s: &str) -> (r: Result<Site, String>)
        ensures
            r matches Ok(site) ==> site_named(s@) == Some(site),
            r matches Err(e) ==> site_named(s@) is None && e@ == "ParseSiteError"@,
    {
        let lower = to_ascii_lowercase(s);
        let l = lower.as_str();
        if str_eq(l, "icc2022") || str_eq(l, "icc") {
            Ok(Site::ICC2022)
        } else if str_eq(l, "okpt") {
            Ok(Site::OKPT)
        } else if str_eq(l, "ggpt") {
            Ok(Site::GGPT)
        } else if str_eq(l, "carpt") {
            Ok(Site::CARPT)
        } else if str_eq(l, "pttime") {
            Ok(Site::PTTIME)
        } else {
            Err(String::from_str("ParseSiteError"))
        }
    }

    /// The file that holds the site's cookies: `./config/<lowercase name>.cookies`.
    pub fn cookie_path(&self) -> (r: String)
        ensures
            r@ == cookie_file(*self),
    {
        let name = self.to_string();
        let mut r = String::from_str("./config/");
        let lower = to_ascii_lowercase(name.as_str());
        r.append(lower.as_str());
        r.append(".cookies");
        r
    }
}

/// Reading the name that `to_string` gives back yields the same site.
pub proof fn lemma_site_name_round_trip(site: Site)
    ensures
        site_named(site_name(site)) == Some(site),
{
    reveal_strlit("OKPT");
    reveal_strlit("okpt");
    reveal_strlit("ICC2022");
    reveal_strlit("icc2022");
    reveal_strlit("icc");
    reveal_strlit("PTTIME");
    reveal_strlit("pttime");
    reveal_strlit("GGPT");
    reveal_strlit("ggpt");
    reveal_strlit("CARPT");
    reveal_strlit("carpt");
    match site {
        Site::OKPT => {
            assert(ascii_lower("OKPT"@) =~= "okpt"@);
        },
        Site::ICC2022 => {
            assert(ascii_lower("ICC2022"@) =~= "icc2022"@);
        },
        Site::PTTIME => {
            assert(ascii_lower("PTTIME"@) =~= "pttime"@);
            assert(ascii_lower("PTTIME"@) != "icc2022"@);
            assert(ascii_lower("PTTIME"@) != "icc"@);
            assert(ascii_lower("PTTIME"@) != "okpt"@);
            assert(ascii_lower("PTTIME"@) != "ggpt"@);
            assert(ascii_lower("PTTIME"@) != "carpt"@);
        },
        Site::GGPT => {
            assert(ascii_lower("GGPT"@) =~= "ggpt"@);
            assert(ascii_lower("GGPT"@) != "icc2022"@);
            assert(ascii_lower("GGPT"@) != "icc"@);
            assert("ggpt"@[0] != "okpt"@[0]);
            assert(ascii_lower("GGPT"@) != "okpt"@);
        },
        Site::CARPT => {
            assert(ascii_lower("CARPT"@) =~= "carpt"@);
            assert(ascii_lower("CARPT"@) != "icc2022"@);
            assert(ascii_lower("CARPT"@) != "icc"@);
            assert(ascii_lower("CARPT"@) != "okpt"@);
            assert(ascii_lower("CARPT"@) != "ggpt"@);
        },
    }
}

/// Site names are read without regard to the case of ASCII letters.
pub proof fn lemma_site_named_ignores_case(s: Seq<char>)
    ensures
        site_named(ascii_lower(s)) == site_named(s),
{
    assert(ascii_lower(ascii_lower(s)) =~= ascii_lower(s));
}

/// `s` cut at every occurrence of `sep`, as `str::split` cuts it: `n` separators give `n + 1` pieces.
pub open spec fn split_at_char(s: Seq<char>, sep: char) -> Seq<Seq<char>>
    decreases s.len(),
{
    if s.len() == 0 {
        seq![Seq::<char>::empty()]
    } else if s.last() == sep {
        split_at_char(s.drop_last(), sep).push(Seq::<char>::empty())
    } else {
        let p = split_at_char(s.drop_last(), sep);
        p.update(p.len() - 1, p.last().push(s.last()))
    }
}

/// The pieces joined again, with `sep` between each two.
pub open spec fn join_with(pieces: Seq<Seq<char>>, sep: char) -> Seq<char>
    decreases pieces.len(),
{
    if pieces.len() == 0 {
        Seq::<char>::empty()
    } else if pieces.len() == 1 {
        pieces[0]
    } else {
        join_with(pieces.drop_last(), sep).push(sep) + pieces.last()
    }
}

proof fn lemma_split_nonempty(s: Seq<char>, sep: char)
    ensures
        split_at_char(s, sep).len() >= 1,
    decreases s.len(),
{
    if s.len() > 0 {
        lemma_split_nonempty(s.drop_last(), sep);
    }
}

/// Cutting a text at a separator and joining the pieces with it gives the text back.
pub proof fn lemma_split_join(s: Seq<char>, sep: char)
    ensures
        join_with(split_at_char(s, sep), sep) == s,
    decreases s.len(),
{
    if s.len() > 0 {
        let t = s.drop_last();
        lemma_split_join(t, sep);
        lemma_split_nonempty(t, sep);
        let p = split_at_char(t, sep);
        if s.last() == sep {
            let q = p.push(Seq::<char>::empty());
            assert(q.drop_last() =~= p);
            assert(join_with(q, sep) =~= t.push(sep));
            assert(s =~= t.push(sep));
        } else {
            let q = p.update(p.len() - 1, p.last().push(s.last()));
            if p.len() == 1 {
                assert(q[0] =~= t.push(s.last()));
            } else {
                assert(q.drop_last() =~= p.drop_last());
                assert(join_with(q, sep) =~= join_with(p.drop_last(), sep).push(sep) + p.last().push(s.last()));
                assert(join_with(p, sep) == join_with(p.drop_last(), sep).push(sep) + p.last());
            }
            assert(s =~= t.push(s.last()));
        }
    }
}

/// The `name=value` pieces of a cookie file: its text cut at every `;`.
pub fn cookie_pairs(text: &str) -> (r: Vec<String>)
    ensures
        r@.map_values(|p: String| p@) == split_at_char(text@, ';'),
{
    let len = text.unicode_len();
    let mut done: Vec<String> = Vec::new();
    let mut cur = String::new();
    let mut i: usize = 0;
    while i < len
        invariant
            len == text@.len(),
            i <= len,
            done@.map_values(|p: String| p@).push(cur@) == split_at_char(text@.take(i as int), ';'),
        decreases len - i,
    {
        let c = text.get_char(i);
        let ghost before = done@.map_values(|p: String| p@).push(cur@);
        assert(text@.take(i + 1).drop_last() =~= text@.take(i as int));
        if c == ';' {
            let piece = cur;
            done.push(piece);
            cur = String::new();
            assert(done@.map_values(|p: String| p@).push(cur@) =~= before.push(Seq::<char>::empty()));
        } else {
            cur.push(c);
            assert(done@.map_values(|p: String| p@).push(cur@) =~= before.update(
                before.len() - 1,
                before.last().push(c),
            ));
        }
        i = i + 1;
    }
    assert(text@.take(len as int) =~= text@);
    let ghost m = done@.map_values(|p: String| p@);
    let ghost last = cur@;
    done.push(cur);
    assert(done@.map_values(|p: String| p@) =~= m.push(last));
    done
}

/// The address of a site's listing up to the page number, which follows it.
pub open spec fn listing_prefix(site: Site) -> Seq<char> {
    match site {
        Site::OKPT => okpt_listing(),
        Site::ICC2022 => icc2022_listing(),
        Site::GGPT => ggpt_listing(),
        Site::CARPT => carpt_listing(),
        Site::PTTIME => pttime_listing(),
    }
}

proof fn lemma_listing_prefix_shape(site: Site)
    ensures
        site_home(site).is_prefix_of(listing_prefix(site)),
        listing_prefix(site).len() >= 5,
        listing_prefix(site).subrange(listing_prefix(site).len() - 5, listing_prefix(site).len() as int)
            == "page="@,
{
    reveal_strlit("page=");
    reveal_strlit("https://www.okpt.net/");
    reveal_strlit("https://www.icc2022.com/");
    reveal_strlit("https://www.gamegamept.com/");
    reveal_strlit("https://carpt.net/");
    reveal_strlit("https://www.pttime.org/");
    reveal_strlit("https://www.okpt.net/torrents.php?inclbookmarked=0&incldead=1&spstate=0&page=");
    reveal_strlit("https://www.icc2022.com/torrents.php?inclbookmarked=0&incldead=1&spstate=0&cat409=1&cat405=1&cat404=1&cat401=1&page=");
    reveal_strlit("https://www.gamegamept.com/torrents.php?inclbookmarked=0&incldead=1&spstate=0&page=");
    reveal_strlit("https://carpt.net/torrents.php?inclbookmarked=0&incldead=1&spstate=0&cat401=1&cat402=1&cat403=1&cat404=1&cat405=1&cat407=1&page=");
    reveal_strlit("https://www.pttime.org/torrents.php?inclbookmarked=0&incldead=1&spstate=0&page=");
    let p = listing_prefix(site);
    let h = site_home(site);
    assert(h =~= p.subrange(0, h.len() as int));
    assert(p.subrange(p.len() - 5, p.len() as int) =~= "page="@);
}

/// The listing address of a page starts with the site's home page, ends its fixed part with
/// `page=`, and then holds only the page's digits, which read back as the page: different
/// pages have different addresses.
pub proof fn lemma_listing_address_names_its_page(site: Site, page: u32, other: u32)
    ensures
        site_home(site).is_prefix_of(listing_prefix(site) + decimal(page as nat)),
        listing_prefix(site).subrange(listing_prefix(site).len() - 5, listing_prefix(site).len() as int)
            == "page="@,
        all_digits(decimal(page as nat)),
        parse_unsigned(
            (listing_prefix(site) + decimal(page as nat)).skip(listing_prefix(site).len() as int),
            u32::MAX as int,
        ) == Some(page as int),
        page != other ==> listing_prefix(site) + decimal(page as nat) != listing_prefix(site)
            + decimal(other as nat),
{
    lemma_listing_prefix_shape(site);
    let p = listing_prefix(site);
    let h = site_home(site);
    crate::text::lemma_decimal_digits(page as nat);
    lemma_parse_decimal(page as nat, u32::MAX as int);
    lemma_parse_decimal(other as nat, u32::MAX as int);
    assert((p + decimal(page as nat)).skip(p.len() as int) =~= decimal(page as nat));
    assert((p + decimal(other as nat)).skip(p.len() as int) =~= decimal(other as nat));
    assert((p + decimal(page as nat)).subrange(0, h.len() as int) =~= p.subrange(0, h.len() as int));
}

/// The home pages of the sites differ from one another; each starts with `https://` and ends
/// with `/`.
pub proof fn lemma_site_homes(s: Site, t: Site)
    ensures
        site_home(s) == site_home(t) ==> s == t,
        "https://"@.is_prefix_of(site_home(s)),
        site_home(s).last() == '/',
{
    reveal_strlit("https://");
    reveal_strlit("https://www.okpt.net/");
    reveal_strlit("https://www.icc2022.com/");
    reveal_strlit("https://www.gamegamept.com/");
    reveal_strlit("https://carpt.net/");
    reveal_strlit("https://www.pttime.org/");
    assert("https://"@ =~= site_home(s).subrange(0, 8));
    if site_home(s) == site_home(t) {
        assert(site_home(s).len() == site_home(t).len());
    }
}

} // verus!
