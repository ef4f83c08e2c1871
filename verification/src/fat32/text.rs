//! Numbers, dates, times and directory entries as text.

use vstd::prelude::*;
use vstd::string::StringExecFns;
use crate::fat32::entry::{Entry, EntryView};
use crate::fat32::metadata::{Date, Metadata, Time, Timestamp};

verus! {

/// The character for the digit `d`.
pub open spec fn digit(d: nat) -> char {
    ((d + 0x30) as u8) as char
}

/// The number `n` in decimal digits, without leading zeros.
pub open spec fn decimal(n: nat) -> Seq<char>
    decreases n,
{
    if n < 10 {
        seq![digit(n)]
    } else {
        decimal(n / 10).push(digit(n % 10))
    }
}

/// The number `n` in decimal digits, with a leading zero if it has one
/// digit.
pub open spec fn padded(n: nat) -> Seq<char> {
    if n < 10 {
        seq!['0'] + decimal(n)
    } else {
        decimal(n)
    }
}

/// `String::push`: the character is appended to the string.
#[verifier::external_body]
pub(crate) fn string_push(s: &mut String, c: char)
    ensures
        final(s)@ == old(s)@.push(c),
{
    s.push(c);
}

/// Appends `n` in decimal digits to `s`.
pub fn push_decimal(s: &mut String, n: u64)
    ensures
        final(s)@ == old(s)@ + decimal(n as nat),
    decreases n,
{
    if n >= 10 {
        push_decimal(s, n / 10);
    }
    let d = (n % 10) as u8;
    string_push(s, (0x30 + d) as char);
    proof {
        if n < 10 {
            assert(s@ =~= old(s)@ + decimal(n as nat));
        } else {
            assert(s@ =~= old(s)@ + decimal(n as nat));
        }
    }
}

/// Appends `n` in decimal digits to `s`, with a leading zero if it has one
/// digit.
pub fn push_padded(s: &mut String, n: u64)
    ensures
        final(s)@ == old(s)@ + padded(n as nat),
{
    if n < 10 {
        string_push(s, '0');
    }
    push_decimal(s, n);
    assert(s@ =~= old(s)@ + padded(n as nat));
}

/// The name of the month with number `month`, in three letters.
pub open spec fn month_text(month: int) -> Seq<char> {
    if month == 1 {
        "Jan"@
    } else if month == 2 {
        "Feb"@
    } else if month == 3 {
        "Mar"@
    } else if month == 4 {
        "Apr"@
    } else if month == 5 {
        "May"@
    } else if month == 6 {
        "Jun"@
    } else if month == 7 {
        "Jul"@
    } else if month == 8 {
        "Aug"@
    } else if month == 9 {
        "Sep"@
    } else if month == 10 {
        "Oct"@
    } else if month == 11 {
        "Nov"@
    } else {
        "Dec"@
    }
}

/// The name of the month with number `month`, in three letters.
fn month_name(month: u8) -> (r: &'static str)
    requires
        1 <= month <= 12,
    ensures
        r@ == month_text(month as int),
{
    match month {
        1 => "Jan",
        2 => "Feb",
        3 => "Mar",
        4 => "Apr",
        5 => "May",
        6 => "Jun",
        7 => "Jul",
        8 => "Aug",
        9 => "Sep",
        10 => "Oct",
        11 => "Nov",
        _ => "Dec",
    }
}

/// A date as text: the day, the name of the month, a comma and the year.
pub open spec fn date_text(date: Date) -> Seq<char> {
    decimal(date.day_of() as nat) + " "@ + month_text(date.month_of()) + ", "@ + decimal(
        date.year_of() as nat,
    )
}

/// A time of day as text: hour, minute and second with colons between
/// them.
pub open spec fn time_text(time: Time) -> Seq<char> {
    decimal(time.hour_of() as nat) + ":"@ + decimal(time.minute_of() as nat) + ":"@ + decimal(
        time.second_of() as nat,
    )
}

/// A date and a time of day as text, with a space between them.
pub open spec fn timestamp_text(ts: Timestamp) -> Seq<char> {
    date_text(ts.date) + " "@ + time_text(ts.time)
}

/// Metadata as text: when the entry was created, and marks for an entry
/// that must not be written and for one that is hidden.
pub open spec fn metadata_text(meta: Metadata) -> Seq<char> {
    "Created: "@ + timestamp_text(meta.created) + (if meta.attributes.read_only_of() {
        " RO"@
    } else {
        Seq::empty()
    }) + (if meta.attributes.hidden_of() {
        " <hidden>"@
    } else {
        Seq::empty()
    })
}

/// A date and a time of day in figures: month, day and year with slashes
/// between them, hour, minute and second with colons between them, all
/// but the year in two digits, and a space at the end.
pub open spec fn stamp_text(ts: Timestamp) -> Seq<char> {
    padded(ts.date.month_of() as nat) + "/"@ + padded(ts.date.day_of() as nat) + "/"@ + decimal(
        ts.date.year_of() as nat,
    ) + " "@ + padded(ts.time.hour_of() as nat) + ":"@ + padded(ts.time.minute_of() as nat) + ":"@
        + padded(ts.time.second_of() as nat) + " "@
}

/// The character `c` if `set`, and a dash otherwise.
pub open spec fn flag(set: bool, c: char) -> char {
    if set {
        c
    } else {
        '-'
    }
}

/// A directory entry as a line of text: marks for a directory, a file, an
/// entry that must not be written and a hidden one; when it was created,
/// written and read; and its name; with tabs between the three parts.
pub open spec fn entry_text(entry: EntryView) -> Seq<char> {
    seq![
        flag(entry.is_dir, 'd'),
        flag(!entry.is_dir, 'f'),
        flag(entry.metadata.attributes.read_only_of(), 'r'),
        flag(entry.metadata.attributes.hidden_of(), 'h'),
        '\t',
    ] + stamp_text(entry.metadata.created) + stamp_text(entry.metadata.modified) + stamp_text(
        Timestamp { date: entry.metadata.accessed, time: Time(0) },
    ) + seq!['\t'] + entry.name
}

impl Date {
    /// The date as text.
    pub fn to_string(&self) -> (r: String)
        requires
            1 <= self.month_of() <= 12,
        ensures
            r@ == date_text(*self),
    {
        let mut s = String::new();
        push_decimal(&mut s, self.day() as u64);
        s.append(" ");
        s.append(month_name(self.month()));
        s.append(", ");
        push_decimal(&mut s, self.year() as u64);
        assert(s@ =~= date_text(*self));
        s
    }
}

impl Time {
    /// The time of day as text.
    pub fn to_string(&self) -> (r: String)
        ensures
            r@ == time_text(*self),
    {
        let mut s = String::new();
        push_decimal(&mut s, self.hour() as u64);
        s.append(":");
        push_decimal(&mut s, self.minute() as u64);
        s.append(":");
        push_decimal(&mut s, self.second() as u64);
        assert(s@ =~= time_text(*self));
        s
    }
}

impl Timestamp {
    /// The date and the time of day as text.
    pub fn to_string(&self) -> (r: String)
        requires
            1 <= self.date.month_of() <= 12,
        ensures
            r@ == timestamp_text(*self),
    {
        let mut s = self.date.to_string();
        s.append(" ");
        let time = self.time.to_string();
        s.append(time.as_str());
        assert(s@ =~= timestamp_text(*self));
        s
    }

    /// The date and the time of day in figures.
    pub fn to_stamp(&self) -> (r: String)
        ensures
            r@ == stamp_text(*self),
    {
        let mut s = String::new();
        push_padded(&mut s, self.month() as u64);
        s.append("/");
        push_padded(&mut s, self.day() as u64);
        s.append("/");
        push_decimal(&mut s, self.year() as u64);
        s.append(" ");
        push_padded(&mut s, self.hour() as u64);
        s.append(":");
        push_padded(&mut s, self.minute() as u64);
        s.append(":");
        push_padded(&mut s, self.second() as u64);
        s.append(" ");
        assert(s@ =~= stamp_text(*self));
        s
    }
}

impl Metadata {
    /// The metadata as text.
    pub fn to_string(&self) -> (r: String)
        requires
            1 <= self.created.date.month_of() <= 12,
        ensures
            r@ == metadata_text(*self),
    {
        let mut s = String::new();
        s.append("Created: ");
        let created = self.created.to_string();
        s.append(created.as_str());
        if self.read_only() {
            s.append(" RO");
        }
        if self.hidden() {
            s.append(" <hidden>");
        }
        assert(s@ =~= metadata_text(*self));
        s
    }
}

impl Entry {
    /// The entry as a line of text.
    pub fn to_string(&self) -> (r: String)
        ensures
            r@ == entry_text(self@),
    {
        let meta = *self.metadata();
        let mut s = String::new();
        string_push(&mut s, if self.is_dir() {
            'd'
        } else {
            '-'
        });
        string_push(&mut s, if self.is_file() {
            'f'
        } else {
            '-'
        });
        string_push(&mut s, if meta.read_only() {
            'r'
        } else {
            '-'
        });
        string_push(&mut s, if meta.hidden() {
            'h'
        } else {
            '-'
        });
        string_push(&mut s, '\t');
        let created = meta.created().to_stamp();
        s.append(created.as_str());
        let modified = meta.modified().to_stamp();
        s.append(modified.as_str());
        let accessed = meta.accessed().to_stamp();
        s.append(accessed.as_str());
        string_push(&mut s, '\t');
        s.append(self.name());
        assert(s@ =~= entry_text(self@));
        s
    }
}

} // verus!
