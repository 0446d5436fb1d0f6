//! Parsing the column-aligned text output of the disk-usage utility into
//! usage records.
//!
//! The first line is a header row; the positions of the "Avail" and "Use%"
//! columns are located by name, so a reordering of columns is tolerated.
//! Every following line whose column count covers both positions yields one
//! record: filesystem name (first column), available space and used
//! percentage. Shorter lines are skipped silently. A header without one of
//! the two labels is an error.

use vstd::prelude::*;
use crate::text::{find_token, find_token_index, split_on_char, split_sep, split_ws,
    split_whitespace_tokens, lemma_split_sep_nonempty};

verus! {

/// One filesystem's usage at the moment of one sample.
#[derive(Debug)]
pub struct UsageRecord {
    /// The filesystem name: the first column of its line.
    pub filesystem: String,
    /// The available space, human-readable, as printed by the utility.
    pub avail: String,
    /// The used percentage, as printed by the utility, e.g. "87%".
    pub used_percent: String,
}

/// The mathematical content of a usage record.
pub struct RecordView {
    pub filesystem: Seq<char>,
    pub avail: Seq<char>,
    pub used_percent: Seq<char>,
}

impl View for UsageRecord {
    type V = RecordView;

    open spec fn view(&self) -> RecordView {
        RecordView {
            filesystem: self.filesystem@,
            avail: self.avail@,
            used_percent: self.used_percent@,
        }
    }
}

impl DeepView for UsageRecord {
    type V = RecordView;

    open spec fn deep_view(&self) -> RecordView {
        self@
    }
}

/// The header labels of the two columns the sampler reads.
pub open spec fn avail_label() -> Seq<char> {
    "Avail"@
}

/// The header label of the used-percentage column.
pub open spec fn used_label() -> Seq<char> {
    "Use%"@
}

/// Whether a data line has enough columns to cover both the available-space
/// column `ai` and the used-percentage column `ui`.
pub open spec fn line_covers(line: Seq<char>, ai: int, ui: int) -> bool {
    split_ws(line).len() > ai && split_ws(line).len() > ui
}

/// The record of one data line, when it has enough columns.
pub open spec fn record_of_line(line: Seq<char>, ai: int, ui: int) -> Option<RecordView> {
    let parts = split_ws(line);
    if 0 <= ai < parts.len() && 0 <= ui < parts.len() {
        Some(RecordView { filesystem: parts[0], avail: parts[ai], used_percent: parts[ui] })
    } else {
        None
    }
}

/// The records of the data lines, in order: one per line that covers both
/// columns, none for a line that does not.
pub open spec fn records_of_lines(lines: Seq<Seq<char>>, ai: int, ui: int) -> Seq<RecordView>
    decreases lines.len(),
{
    if lines.len() == 0 {
        Seq::empty()
    } else {
        let rest = records_of_lines(lines.drop_first(), ai, ui);
        match record_of_line(lines[0], ai, ui) {
            Some(r) => seq![r] + rest,
            None => rest,
        }
    }
}

/// The position of the available-space column in the header line of `s`.
pub open spec fn avail_index(s: Seq<char>) -> Option<int> {
    find_token(split_ws(split_sep(s, '\n')[0]), avail_label())
}

/// The position of the used-percentage column in the header line of `s`.
pub open spec fn used_index(s: Seq<char>) -> Option<int> {
    find_token(split_ws(split_sep(s, '\n')[0]), used_label())
}

/// The records parsed from the utility output `s`, when both header labels
/// are present.
pub open spec fn sample_records(s: Seq<char>) -> Seq<RecordView> {
    records_of_lines(
        split_sep(s, '\n').drop_first(),
        avail_index(s).unwrap(),
        used_index(s).unwrap(),
    )
}

/// The number of data lines that cover both columns.
pub open spec fn count_covered(lines: Seq<Seq<char>>, ai: int, ui: int) -> int
    decreases lines.len(),
{
    if lines.len() == 0 {
        0
    } else {
        (if line_covers(lines[0], ai, ui) {
            1int
        } else {
            0int
        }) + count_covered(lines.drop_first(), ai, ui)
    }
}

/// The sampler yields exactly one record per data line that covers both
/// column positions, and none for a line that does not.
pub proof fn lemma_one_record_per_covered_line(lines: Seq<Seq<char>>, ai: int, ui: int)
    requires
        0 <= ai,
        0 <= ui,
    ensures
        records_of_lines(lines, ai, ui).len() == count_covered(lines, ai, ui),
        count_covered(lines, ai, ui) <= lines.len(),
    decreases lines.len(),
{
    if lines.len() > 0 {
        lemma_one_record_per_covered_line(lines.drop_first(), ai, ui);
    }
}

/// Why the utility output could not be parsed.
#[derive(Clone, Copy, Debug, PartialEq, Eq, Structural)]
pub enum SampleError {
    /// The header line has no "Avail" column.
    MissingAvailColumn,
    /// The header line has no "Use%" column.
    MissingUsePercentColumn,
}

/// Parses the utility output: a header line naming the columns, then one
/// line per filesystem. Returns one record per data line that covers both
/// named columns, or the error that names the missing header label, the
/// missing available-space label reported first.
pub fn parse_usage_output(output: &str) -> (r: Result<Vec<UsageRecord>, SampleError>)
    ensures
        r is Ok <==> avail_index(output@) is Some && used_index(output@) is Some,
        r matches Ok(v) ==> v.deep_view() == sample_records(output@),
        r matches Err(e) ==> (e == SampleError::MissingAvailColumn <==> avail_index(output@)
            is None),
{
    proof {
        lemma_split_sep_nonempty(output@, '\n');
    }
    let lines = split_on_char(output, '\n');
    assert(lines.deep_view().len() == lines@.len());
    let headers = split_whitespace_tokens(lines[0].as_str());
    let ai: usize = match find_token_index(&headers, "Avail") {
        Some(i) => i,
        None => {
            return Err(SampleError::MissingAvailColumn);
        },
    };
    let ui: usize = match find_token_index(&headers, "Use%") {
        Some(i) => i,
        None => {
            return Err(SampleError::MissingUsePercentColumn);
        },
    };
    let ghost tail = lines.deep_view().drop_first();
    let mut records: Vec<UsageRecord> = Vec::new();
    let mut i: usize = 1;
    assert(records.deep_view() =~= Seq::<RecordView>::empty());
    assert(tail.skip(0) =~= tail);
    while i < lines.len()
        invariant
            1 <= i <= lines.len(),
            lines.deep_view().len() == lines@.len(),
            tail == lines.deep_view().drop_first(),
            records.deep_view() + records_of_lines(tail.skip(i - 1), ai as int, ui as int)
                == records_of_lines(tail, ai as int, ui as int),
        decreases lines.len() - i,
    {
        let ghost rem = tail.skip(i - 1);
        assert(rem[0] == tail[i - 1]);
        assert(tail[i - 1] == lines.deep_view()[i as int]);
        assert(rem.drop_first() =~= tail.skip(i as int));
        let parts = split_whitespace_tokens(lines[i].as_str());
        assert(parts.deep_view().len() == parts@.len());
        if ai < parts.len() && ui < parts.len() {
            let rec = UsageRecord {
                filesystem: parts[0].clone(),
                avail: parts[ai].clone(),
                used_percent: parts[ui].clone(),
            };
            let ghost pre = records.deep_view();
            assert(split_ws(rem[0]) == parts.deep_view());
            assert(record_of_line(rem[0], ai as int, ui as int) == Some(rec@));
            records.push(rec);
            assert(records.deep_view() =~= pre.push(rec@));
            proof {
                let rest = records_of_lines(rem.drop_first(), ai as int, ui as int);
                assert(records_of_lines(rem, ai as int, ui as int) == seq![rec@] + rest);
                assert(pre.push(rec@) + rest =~= pre + (seq![rec@] + rest));
            }
        } else {
            assert(record_of_line(rem[0], ai as int, ui as int) is None);
        }
        i += 1;
    }
    proof {
        assert(tail.skip(lines@.len() - 1) =~= Seq::<Seq<char>>::empty());
        assert(records_of_lines(tail.skip(lines@.len() - 1), ai as int, ui as int) =~= Seq::<
            RecordView,
        >::empty());
        assert(records.deep_view() + Seq::<RecordView>::empty() =~= records.deep_view());
    }
    Ok(records)
}

} // verus!
