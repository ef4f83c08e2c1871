//! Dates, times and attributes as directory entries hold them.

use vstd::prelude::*;

verus! {

/// A date: bits 15 to 9 hold the years since 1980, bits 8 to 5 the month
/// and bits 4 to 0 the day.
#[derive(Debug, Copy, Clone, PartialEq, Eq, Structural)]
pub struct Date(pub u16);

impl Date {
    /// The year.
    pub open spec fn year_of(self) -> int {
        1980 + self.0 as int / 512
    }

    /// The month, from 1 for January.
    pub open spec fn month_of(self) -> int {
        self.0 as int / 32 % 16
    }

    /// The day of the month, from 1.
    pub open spec fn day_of(self) -> int {
        self.0 as int % 32
    }

    /// The year.
    pub fn year(&self) -> (r: usize)
        ensures
            r == self.year_of(),
            1980 <= r <= 2107,
    {
        let v = self.0;
        assert(((v & (0x7Fu16 << 9)) >> 9) == v / 512 && v / 512 <= 127) by (bit_vector);
        1980 + ((v & (0x7F << 9)) >> 9) as usize
    }

    /// The month, from 1 for January.
    pub fn month(&self) -> (r: u8)
        ensures
            r == self.month_of(),
            r < 16,
    {
        let v = self.0;
        assert(((v & (0xFu16 << 5)) >> 5) == v / 32 % 16) by (bit_vector);
        ((v & (0xF << 5)) >> 5) as u8
    }

    /// The day of the month, from 1.
    pub fn day(&self) -> (r: u8)
        ensures
            r == self.day_of(),
            r < 32,
    {
        let v = self.0;
        assert(v & 0x1F == v % 32) by (bit_vector);
        (v & 0x1F) as u8
    }
}

impl Default for Date {
    fn default() -> (r: Date)
        ensures
            r == Date(0),
    {
        Date(0)
    }
}

/// A time of day: bits 15 to 11 hold the hour, bits 10 to 5 the minute and
/// bits 4 to 0 half the second.
#[derive(Debug, Copy, Clone, PartialEq, Eq, Structural)]
pub struct Time(pub u16);

impl Time {
    /// The hour.
    pub open spec fn hour_of(self) -> int {
        self.0 as int / 2048
    }

    /// The minute.
    pub open spec fn minute_of(self) -> int {
        self.0 as int / 32 % 64
    }

    /// The second, which is always even.
    pub open spec fn second_of(self) -> int {
        2 * (self.0 as int % 32)
    }

    /// The hour.
    pub fn hour(&self) -> (r: u8)
        ensures
            r == self.hour_of(),
            r < 32,
    {
        let v = self.0;
        assert(((v & (0x1Fu16 << 11)) >> 11) == v / 2048 && v / 2048 < 32) by (bit_vector);
        ((v & (0x1F << 11)) >> 11) as u8
    }

    /// The minute.
    pub fn minute(&self) -> (r: u8)
        ensures
            r == self.minute_of(),
            r < 64,
    {
        let v = self.0;
        assert(((v & (0x3Fu16 << 5)) >> 5) == v / 32 % 64) by (bit_vector);
        ((v & (0x3F << 5)) >> 5) as u8
    }

    /// The second, which is always even.
    pub fn second(&self) -> (r: u8)
        ensures
            r == self.second_of(),
            r < 64,
    {
        let v = self.0;
        assert(v & 0x1F == v % 32) by (bit_vector);
        2 * (v & 0x1F) as u8
    }
}

impl Default for Time {
    fn default() -> (r: Time)
        ensures
            r == Time(0),
    {
        Time(0)
    }
}

/// The attributes of a directory entry.
#[derive(Debug, Copy, Clone, PartialEq, Eq, Structural)]
pub struct Attributes(pub u8);

impl Attributes {
    /// The entry must not be written: bit 0 is set.
    pub open spec fn read_only_of(self) -> bool {
        self.0 as int % 2 == 1
    }

    /// The entry is left out of listings: bit 1 is set.
    pub open spec fn hidden_of(self) -> bool {
        self.0 as int / 2 % 2 == 1
    }

    /// The entry is a directory: bit 4 is set.
    pub open spec fn dir_of(self) -> bool {
        self.0 as int / 16 % 2 == 1
    }

    /// Whether the entry must not be written.
    pub fn read_only(&self) -> (r: bool)
        ensures
            r == self.read_only_of(),
    {
        let v = self.0;
        assert(((v & 0x1) == 0x1) == (v % 2 == 1)) by (bit_vector);
        (v & 0x1) == 0x1
    }

    /// Whether the entry is left out of listings.
    pub fn hidden(&self) -> (r: bool)
        ensures
            r == self.hidden_of(),
    {
        let v = self.0;
        assert(((v & 0x2) == 0x2) == (v / 2 % 2 == 1)) by (bit_vector);
        (v & 0x2) == 0x2
    }

    /// Whether the attributes differ from those that mark a part of a long
    /// name.
    pub fn is_lfn(&self) -> (r: bool)
        ensures
            r == (self.0 != 0xF),
    {
        self.0 != 0xF
    }

    /// Whether the entry is a directory.
    pub fn is_dir(&self) -> (r: bool)
        ensures
            r == self.dir_of(),
    {
        let v = self.0;
        assert(((v & 0x10) == 0x10) == (v / 16 % 2 == 1)) by (bit_vector);
        (v & 0x10) == 0x10
    }

    /// Whether the entry is neither a directory nor something for which
    /// `is_lfn` holds.
    pub fn is_file(&self) -> (r: bool)
        ensures
            r == (!self.dir_of() && self.0 == 0xF),
    {
        !self.is_dir() && !self.is_lfn()
    }
}

impl Default for Attributes {
    fn default() -> (r: Attributes)
        ensures
            r == Attributes(0),
    {
        Attributes(0)
    }
}

/// A date and a time of day.
#[derive(Debug, Copy, Clone, PartialEq, Eq, Structural)]
pub struct Timestamp {
    pub date: Date,
    pub time: Time,
}

impl Timestamp {
    /// The year.
    pub fn year(&self) -> (r: usize)
        ensures
            r == self.date.year_of(),
    {
        self.date.year()
    }

    /// The month, from 1 for January.
    pub fn month(&self) -> (r: u8)
        ensures
            r == self.date.month_of(),
    {
        self.date.month()
    }

    /// The day of the month, from 1.
    pub fn day(&self) -> (r: u8)
        ensures
            r == self.date.day_of(),
    {
        self.date.day()
    }

    /// The hour.
    pub fn hour(&self) -> (r: u8)
        ensures
            r == self.time.hour_of(),
    {
        self.time.hour()
    }

    /// The minute.
    pub fn minute(&self) -> (r: u8)
        ensures
            r == self.time.minute_of(),
    {
        self.time.minute()
    }

    /// The second.
    pub fn second(&self) -> (r: u8)
        ensures
            r == self.time.second_of(),
    {
        self.time.second()
    }
}

impl Default for Timestamp {
    fn default() -> (r: Timestamp)
        ensures
            r == (Timestamp { date: Date(0), time: Time(0) }),
    {
        Timestamp { date: Date(0), time: Time(0) }
    }
}

/// What a directory entry tells of a file or directory beyond its name and
/// place.
#[derive(Debug, Copy, Clone, PartialEq, Eq, Structural)]
pub struct Metadata {
    pub attributes: Attributes,
    pub created: Timestamp,
    pub modified: Timestamp,
    pub accessed: Date,
}

impl Metadata {
    /// The metadata in which every part is zero.
    pub open spec fn default_spec() -> Metadata {
        Metadata {
            attributes: Attributes(0),
            created: Timestamp { date: Date(0), time: Time(0) },
            modified: Timestamp { date: Date(0), time: Time(0) },
            accessed: Date(0),
        }
    }

    /// The metadata with the given parts.
    pub fn from(attr: Attributes, created: Timestamp, modified: Timestamp, accessed: Date) -> (r:
        Metadata)
        ensures
            r == (Metadata { attributes: attr, created, modified, accessed }),
    {
        Metadata { attributes: attr, created, modified, accessed }
    }

    /// Whether the entry must not be written.
    pub fn read_only(&self) -> (r: bool)
        ensures
            r == self.attributes.read_only_of(),
    {
        self.attributes.read_only()
    }

    /// Whether the entry is left out of listings.
    pub fn hidden(&self) -> (r: bool)
        ensures
            r == self.attributes.hidden_of(),
    {
        self.attributes.hidden()
    }

    /// When the entry was created.
    pub fn created(&self) -> (r: Timestamp)
        ensures
            r == self.created,
    {
        self.created
    }

    /// The day on which the entry was last read, at midnight.
    pub fn accessed(&self) -> (r: Timestamp)
        ensures
            r == (Timestamp { date: self.accessed, time: Time(0) }),
    {
        Timestamp { date: self.accessed, time: Time(0) }
    }

    /// When the entry was last written.
    pub fn modified(&self) -> (r: Timestamp)
        ensures
            r == self.modified,
    {
        self.modified
    }
}

impl Default for Metadata {
    fn default() -> (r: Metadata)
        ensures
            r == Metadata::default_spec(),
    {
        Metadata {
            attributes: Attributes(0),
            created: Timestamp { date: Date(0), time: Time(0) },
            modified: Timestamp { date: Date(0), time: Time(0) },
            accessed: Date(0),
        }
    }
}

} // verus!
