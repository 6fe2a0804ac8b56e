//! Downloading a source archive: how it goes on, and whether all of it came.

use crate::number::{parse_number, write_decimal};
use crate::text::chars_of;
use crate::ui::format_bytes;
use vstd::prelude::*;
use vstd::string::*;

verus! {

/// How many bytes come between two reports, so the spinner moves without flooding
/// CI logs: 4 MiB.
pub const REPORT_INTERVAL: u64 = 0x40_0000;

/// Why a download failed.
#[derive(Debug)]
pub enum DownloadError {
    /// The download broke off.
    Failed { cause: String },
    /// Less came, or more, than was announced.
    Truncated { got: u64, total: u64 },
}

impl DownloadError {
    /// The error in words.
    pub open spec fn words(self) -> Seq<char> {
        match self {
            DownloadError::Failed { cause } => cause@,
            DownloadError::Truncated { got, total } => "truncated download: got "@
                + crate::number::decimal(got as nat) + " of "@ + crate::number::decimal(
                total as nat,
            ) + " bytes"@,
        }
    }

    /// The error in words.
    pub fn message(&self) -> (text: String)
        ensures
            text@ == self.words(),
    {
        match self {
            DownloadError::Failed { cause } => cause.clone(),
            DownloadError::Truncated { got, total } => {
                let mut text = "truncated download: got ".to_owned();
                text.append(write_decimal(*got).as_str());
                text.append(" of ");
                text.append(write_decimal(*total).as_str());
                text.append(" bytes");
                text
            },
        }
    }
}

/// The size that a `Content-Length` header announces, or zero where it announces
/// none.
pub open spec fn announced(header: Option<Seq<char>>) -> nat {
    match header {
        Some(text) => match crate::number::parsed_number(text, u64::MAX as nat) {
            Some(size) => size,
            None => 0,
        },
        None => 0,
    }
}

/// The size that a `Content-Length` header announces, or zero where it announces
/// none.
pub fn content_length(header: Option<&str>) -> (size: u64)
    ensures
        size == announced(
            match header {
                Some(text) => Some(text@),
                None => None,
            },
        ),
{
    match header {
        Some(text) => {
            let chars = chars_of(text);
            match parse_number(&chars, u64::MAX) {
                Some(size) => size,
                None => 0,
            }
        },
        None => 0,
    }
}

/// A download on its way.
#[derive(Debug, Clone, Copy)]
pub struct Download {
    /// The size that was announced, or zero.
    pub total: u64,
    /// How many bytes came.
    pub written: u64,
    /// How many had come when the last report was made.
    pub reported: u64,
}

/// How far a download is.
pub open spec fn progress_text(written: u64, total: u64) -> Seq<char> {
    if total == 0 {
        "downloaded "@ + crate::ui::measure::bytes_text(written as nat)
    } else {
        "downloaded "@ + crate::ui::measure::bytes_text(written as nat) + " / "@
            + crate::ui::measure::bytes_text(total as nat) + " ("@ + crate::number::decimal(
            (written as nat * 100) / total as nat,
        ) + "%)"@
    }
}

impl Download {
    /// No report was made of bytes that have not come.
    pub open spec fn wf(self) -> bool {
        self.reported <= self.written
    }

    /// The bytes that will have come can be counted, and a hundred times as many where
    /// a percentage of them is reported.
    pub open spec fn has_room(self, count: u64) -> bool {
        &&& self.written + count <= u64::MAX
        &&& self.total > 0 && self.written + count - self.reported >= REPORT_INTERVAL ==> (
        self.written + count) * 100 <= u64::MAX
    }

    /// A download of which `total` bytes were announced, or none.
    pub fn new(total: u64) -> (download: Download)
        ensures
            download.total == total,
            download.written == 0,
            download.reported == 0,
            download.wf(),
    {
        Download { total, written: 0, reported: 0 }
    }

    /// Whether `count` bytes more can be counted.
    pub fn can_take(&self, count: u64) -> (room: bool)
        requires
            self.wf(),
        ensures
            room == self.has_room(count),
    {
        if count > u64::MAX - self.written {
            return false;
        }
        let written: u64 = self.written + count;
        self.total == 0 || written - self.reported < REPORT_INTERVAL || written <= u64::MAX / 100
    }

    /// `count` bytes came. There is a report where enough have come since the last.
    pub fn take(&mut self, count: u64) -> (report: Option<String>)
        requires
            old(self).wf(),
            old(self).has_room(count),
        ensures
            final(self).wf(),
            final(self).total == old(self).total,
            final(self).written == old(self).written + count,
            if final(self).written - old(self).reported >= REPORT_INTERVAL {
                &&& final(self).reported == final(self).written
                &&& report matches Some(text) && text@ == progress_text(
                    final(self).written,
                    old(self).total,
                )
            } else {
                &&& final(self).reported == old(self).reported
                &&& report is None
            },
    {
        self.written = self.written + count;
        if self.written - self.reported < REPORT_INTERVAL {
            return None;
        }
        self.reported = self.written;
        let mut text = "downloaded ".to_owned();
        text.append(format_bytes(self.written).as_str());
        if self.total > 0 {
            text.append(" / ");
            text.append(format_bytes(self.total).as_str());
            text.append(" (");
            text.append(write_decimal(self.written * 100 / self.total).as_str());
            text.append("%)");
        }
        Some(text)
    }

    /// Nothing more comes.
    pub fn finish(&self) -> (outcome: Result<(), DownloadError>)
        ensures
            if self.total > 0 && self.written != self.total {
                outcome matches Err(DownloadError::Truncated { got, total }) && got == self.written
                    && total == self.total
            } else {
                outcome is Ok
            },
    {
        if self.total > 0 && self.written != self.total {
            return Err(DownloadError::Truncated { got: self.written, total: self.total });
        }
        Ok(())
    }
}

// -- laws --------------------------------------------------------------------

/// The size that is announced is the number that the header writes; nothing is
/// announced by a header that is no number, or missing.
pub proof fn law_sizes_are_announced_as_numbers(size: u64, text: Seq<char>)
    ensures
        announced(Some(crate::number::decimal(size as nat))) == size,
        announced(None) == 0,
        text.len() > 0 && text[0] != '+' && !('0' <= text[0] <= '9') ==> announced(Some(text)) == 0,
        text.len() == 0 ==> announced(Some(text)) == 0,
{
    crate::number::law_decimal_round_trip(size as nat, u64::MAX as nat);
    crate::number::law_only_digits_are_read(text, u64::MAX as nat);
}

/// Progress is given as what came, and, where a size was announced, as a part of it:
/// the whole percents that have come.
pub proof fn law_progress_is_given_in_percent(written: u64, total: u64, percent: nat)
    ensures
        progress_text(written, 0) == "downloaded "@ + crate::ui::measure::bytes_text(
            written as nat,
        ),
        total > 0 && percent * total <= 100 * written < (percent + 1) * total ==> progress_text(
            written,
            total,
        ) == "downloaded "@ + crate::ui::measure::bytes_text(written as nat) + " / "@
            + crate::ui::measure::bytes_text(total as nat) + " ("@ + crate::number::decimal(percent)
            + "%)"@,
{
    if total > 0 && percent * total <= 100 * written < (percent + 1) * total {
        let n = 100 * written;
        assert((percent + 1) * total == percent * total + total) by (nonlinear_arith);
        vstd::arithmetic::div_mod::lemma_fundamental_div_mod_converse(
            n,
            total as int,
            percent as int,
            n - percent * total,
        );
        assert(written as nat * 100 == n);
    }
}

/// Reports are four mebibytes apart at least.
pub proof fn law_reports_are_apart()
    ensures
        REPORT_INTERVAL == 4 * 1024 * 1024,
{
}

/// There is room for all bytes of which a hundred times as many can be counted, and,
/// where no percentage is given of them, for all that can be counted.
pub proof fn law_there_is_room_for_what_can_be_counted(download: Download, count: u64)
    ensures
        (download.written + count) * 100 <= u64::MAX ==> download.has_room(count),
        download.total == 0 && download.written + count <= u64::MAX ==> download.has_room(count),
        download.written + count <= u64::MAX && download.written + count - download.reported < 4
            * 1024 * 1024 ==> download.has_room(count),
        download.has_room(count) ==> download.written + count <= u64::MAX,
{
}

} // verus!
