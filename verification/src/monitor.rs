//! The monitor's decision step: which sampled records trigger a
//! notification, and how long the following sleep lasts.
//!
//! One cycle takes the sampled records and the configuration, keeps the
//! records whose filesystem stands in the watch-list, reads each kept
//! record's used percentage, and produces one notification per record at or
//! over the threshold, in sample order. A cycle that produced at least one
//! notification is followed by the long warning interval, a quiet cycle by
//! the short trigger interval. A watched record whose used percentage cannot
//! be read is a fatal error, reported with the offending fields.

use vstd::prelude::*;
use crate::notify::{warning_message, warning_message_string};
use crate::text::{split_on_char, split_sep};
use crate::percent::{lemma_used_percent_range, parse_used_percent, used_percent_value};
use crate::sampler::{RecordView, UsageRecord};

verus! {

/// What the monitor loop is configured with.
#[derive(Debug)]
pub struct MonitorConfig {
    /// The filesystems that may trigger notifications.
    pub watch_list: Vec<String>,
    /// The used-percentage threshold, in hundredths of a percent.
    pub threshold_hundredths: u32,
    /// The sleep after a cycle with no notification, in seconds.
    pub trigger_interval_secs: u64,
    /// The sleep after a cycle with at least one notification, in seconds.
    pub warning_interval_secs: u64,
}

/// One notification to be delivered: the filesystem, its used percentage as
/// sampled, and the warning text.
#[derive(Debug)]
pub struct Notification {
    pub filesystem: String,
    pub used_percent: String,
    pub message: String,
}

/// The mathematical content of a notification.
pub struct NoticeView {
    pub filesystem: Seq<char>,
    pub used_percent: Seq<char>,
    pub message: Seq<char>,
}

impl View for Notification {
    type V = NoticeView;

    open spec fn view(&self) -> NoticeView {
        NoticeView {
            filesystem: self.filesystem@,
            used_percent: self.used_percent@,
            message: self.message@,
        }
    }
}

impl DeepView for Notification {
    type V = NoticeView;

    open spec fn deep_view(&self) -> NoticeView {
        self@
    }
}

/// Whether `fs` stands in the watch-list.
pub open spec fn is_watched(fs: Seq<char>, watch: Seq<Seq<char>>) -> bool {
    watch.contains(fs)
}

/// Whether a record triggers a notification: its filesystem is watched and
/// its used percentage reads as a value at or over the threshold (given in
/// hundredths of a percent).
pub open spec fn triggers(r: RecordView, watch: Seq<Seq<char>>, threshold: int) -> bool {
    is_watched(r.filesystem, watch) && match used_percent_value(r.used_percent) {
        Some(v) => v >= threshold,
        None => false,
    }
}

/// The records that trigger a notification, in sample order.
pub open spec fn over_records(
    records: Seq<RecordView>,
    watch: Seq<Seq<char>>,
    threshold: int,
) -> Seq<RecordView>
    decreases records.len(),
{
    if records.len() == 0 {
        Seq::empty()
    } else {
        let rest = over_records(records.drop_first(), watch, threshold);
        if triggers(records[0], watch, threshold) {
            seq![records[0]] + rest
        } else {
            rest
        }
    }
}

/// The notification raised by one triggering record.
pub open spec fn notice_of(r: RecordView) -> NoticeView {
    NoticeView {
        filesystem: r.filesystem,
        used_percent: r.used_percent,
        message: warning_message(r.filesystem, r.used_percent),
    }
}

/// The notifications raised by a sequence of triggering records.
pub open spec fn notices_of(records: Seq<RecordView>) -> Seq<NoticeView> {
    records.map_values(|r: RecordView| notice_of(r))
}

/// Whether every watched record's used percentage reads as a valid value.
pub open spec fn all_watched_parse(records: Seq<RecordView>, watch: Seq<Seq<char>>) -> bool {
    forall|i: int|
        0 <= i < records.len() && is_watched(records[i].filesystem, watch)
            ==> used_percent_value(records[i].used_percent) is Some
}

/// Whether position `i` holds the first watched record whose used percentage
/// cannot be read, and `fs` and `used` are its fields.
pub open spec fn bad_used_percent_at(
    records: Seq<RecordView>,
    watch: Seq<Seq<char>>,
    i: int,
    fs: Seq<char>,
    used: Seq<char>,
) -> bool {
    &&& 0 <= i < records.len()
    &&& is_watched(records[i].filesystem, watch)
    &&& used_percent_value(records[i].used_percent) is None
    &&& fs == records[i].filesystem
    &&& used == records[i].used_percent
    &&& forall|j: int|
        0 <= j < i && is_watched(records[j].filesystem, watch) ==> used_percent_value(
            records[j].used_percent,
        ) is Some
}

/// Whether the fields `fs` and `used` report the first watched record whose
/// used percentage cannot be read.
pub open spec fn reports_first_bad(
    records: Seq<RecordView>,
    watch: Seq<Seq<char>>,
    fs: Seq<char>,
    used: Seq<char>,
) -> bool {
    exists|i: int| bad_used_percent_at(records, watch, i, fs, used)
}

/// A watched record whose used percentage could not be read: the monitor's
/// fatal condition.
#[derive(Debug)]
pub struct InvalidUsedPercent {
    pub filesystem: String,
    pub used_percent: String,
}

/// What one cycle decided: the notifications to deliver, in sample order,
/// and the length of the following sleep.
#[derive(Debug)]
pub struct CycleDecision {
    pub notifications: Vec<Notification>,
    pub sleep_secs: u64,
}

/// Reads the watch-list from its comma-separated configuration string,
/// empty entries kept: an empty string yields one empty entry, which no
/// sampled filesystem name matches.
pub fn parse_watch_list(s: &str) -> (r: Vec<String>)
    ensures
        r.deep_view() == split_sep(s@, ','),
{
    split_on_char(s, ',')
}

/// Whether `fs` stands in the watch-list.
pub fn watch_contains(watch: &Vec<String>, fs: &String) -> (r: bool)
    ensures
        r == watch.deep_view().contains(fs@),
{
    let mut i: usize = 0;
    while i < watch.len()
        invariant
            i <= watch.len(),
            watch.deep_view().len() == watch@.len(),
            forall|j: int| 0 <= j < i ==> watch.deep_view()[j] != fs@,
        decreases watch.len() - i,
    {
        if watch[i].eq(fs) {
            assert(watch.deep_view()[i as int] == fs@);
            assert(watch.deep_view().contains(fs@));
            return true;
        }
        i += 1;
    }
    assert(!watch.deep_view().contains(fs@));
    false
}

/// One decision step of the monitor loop.
///
/// Keeps the records whose filesystem is watched, reads each kept record's
/// used percentage, and raises one notification per record at or over the
/// threshold, in sample order. The sleep is the warning interval exactly
/// when at least one notification was raised, the trigger interval
/// otherwise. The error reports the first watched record whose used
/// percentage does not read as a value in [0, 100] percent.
pub fn evaluate_cycle(records: &Vec<UsageRecord>, config: &MonitorConfig) -> (r: Result<
    CycleDecision,
    InvalidUsedPercent,
>)
    ensures
        r is Ok <==> all_watched_parse(records.deep_view(), config.watch_list.deep_view()),
        r matches Ok(d) ==> d.notifications.deep_view() == notices_of(
            over_records(
                records.deep_view(),
                config.watch_list.deep_view(),
                config.threshold_hundredths as int,
            ),
        ),
        r matches Ok(d) ==> d.sleep_secs == (if over_records(
            records.deep_view(),
            config.watch_list.deep_view(),
            config.threshold_hundredths as int,
        ).len() > 0 {
            config.warning_interval_secs
        } else {
            config.trigger_interval_secs
        }),
        r matches Err(e) ==> reports_first_bad(
            records.deep_view(),
            config.watch_list.deep_view(),
            e.filesystem@,
            e.used_percent@,
        ),
{
    let ghost rv = records.deep_view();
    let ghost watch = config.watch_list.deep_view();
    let ghost th = config.threshold_hundredths as int;
    let mut notes: Vec<Notification> = Vec::new();
    let mut i: usize = 0;
    assert(notes.deep_view() =~= Seq::<NoticeView>::empty());
    assert(rv.skip(0) =~= rv);
    assert(Seq::<NoticeView>::empty() + notices_of(over_records(rv, watch, th)) =~= notices_of(
        over_records(rv, watch, th),
    ));
    while i < records.len()
        invariant
            i <= records.len(),
            rv == records.deep_view(),
            watch == config.watch_list.deep_view(),
            th == config.threshold_hundredths as int,
            rv.len() == records@.len(),
            notices_of(over_records(rv, watch, th)) == notes.deep_view() + notices_of(
                over_records(rv.skip(i as int), watch, th),
            ),
            forall|j: int|
                0 <= j < i && is_watched(rv[j].filesystem, watch) ==> used_percent_value(
                    rv[j].used_percent,
                ) is Some,
        decreases records.len() - i,
    {
        let ghost rem = rv.skip(i as int);
        assert(rem[0] == rv[i as int]);
        assert(rem.drop_first() =~= rv.skip(i + 1));
        let record = &records[i];
        assert(record@ == rv[i as int]);
        let watched = watch_contains(&config.watch_list, &record.filesystem);
        if watched {
            match parse_used_percent(record.used_percent.as_str()) {
                Some(v) => {
                    proof {
                        lemma_used_percent_range(rv[i as int].used_percent);
                        assert(used_percent_value(rv[i as int].used_percent) matches Some(v0)
                            && v0 == v as int);
                    }
                    if v >= config.threshold_hundredths {
                        assert(triggers(rv[i as int], watch, th));
                        let msg = warning_message_string(
                            record.filesystem.as_str(),
                            record.used_percent.as_str(),
                        );
                        let note = Notification {
                            filesystem: record.filesystem.clone(),
                            used_percent: record.used_percent.clone(),
                            message: msg,
                        };
                        let ghost pre = notes.deep_view();
                        assert(note@ == notice_of(rv[i as int]));
                        notes.push(note);
                        assert(notes.deep_view() =~= pre.push(notice_of(rv[i as int])));
                        proof {
                            let rest = over_records(rv.skip(i + 1), watch, th);
                            assert(over_records(rem, watch, th) == seq![rem[0]] + rest);
                            assert(notices_of(seq![rem[0]] + rest) =~= seq![notice_of(rem[0])]
                                + notices_of(rest));
                            assert(pre + (seq![notice_of(rem[0])] + notices_of(rest)) =~= pre.push(
                                notice_of(rv[i as int]),
                            ) + notices_of(rest));
                        }
                    } else {
                        assert(!triggers(rv[i as int], watch, th));
                        assert(over_records(rem, watch, th) == over_records(
                            rv.skip(i + 1),
                            watch,
                            th,
                        ));
                    }
                },
                None => {
                    let e = InvalidUsedPercent {
                        filesystem: record.filesystem.clone(),
                        used_percent: record.used_percent.clone(),
                    };
                    proof {
                        assert(used_percent_value(rv[i as int].used_percent) is None);
                        assert(bad_used_percent_at(
                            records.deep_view(),
                            config.watch_list.deep_view(),
                            i as int,
                            e.filesystem@,
                            e.used_percent@,
                        ));
                        assert(reports_first_bad(
                            records.deep_view(),
                            config.watch_list.deep_view(),
                            e.filesystem@,
                            e.used_percent@,
                        ));
                        assert(!all_watched_parse(records.deep_view(),
                            config.watch_list.deep_view()));
                    }
                    return Err(e);
                },
            }
        } else {
            assert(!triggers(rv[i as int], watch, th));
            assert(over_records(rem, watch, th) == over_records(rv.skip(i + 1), watch, th));
        }
        i += 1;
    }
    assert(rv.skip(rv.len() as int) =~= Seq::<RecordView>::empty());
    proof {
        assert(notices_of(Seq::<RecordView>::empty()) =~= Seq::<NoticeView>::empty());
        assert(notes.deep_view() + Seq::<NoticeView>::empty() =~= notes.deep_view());
        assert(notes.deep_view() == notices_of(over_records(rv, watch, th)));
        assert(notes.deep_view().len() == over_records(rv, watch, th).len());
    }
    let sleep_secs: u64 = if notes.len() > 0 {
        config.warning_interval_secs
    } else {
        config.trigger_interval_secs
    };
    Ok(CycleDecision { notifications: notes, sleep_secs })
}

/// Every record that triggers a notification does so by the rule: its
/// filesystem is watched and its used percentage reads at or over the
/// threshold.
pub proof fn lemma_over_records_trigger(
    records: Seq<RecordView>,
    watch: Seq<Seq<char>>,
    threshold: int,
)
    ensures
        forall|i: int|
            0 <= i < over_records(records, watch, threshold).len() ==> #[trigger] triggers(
                over_records(records, watch, threshold)[i],
                watch,
                threshold,
            ),
    decreases records.len(),
{
    if records.len() > 0 {
        lemma_over_records_trigger(records.drop_first(), watch, threshold);
        let rest = over_records(records.drop_first(), watch, threshold);
        if triggers(records[0], watch, threshold) {
            assert(forall|i: int|
                1 <= i < over_records(records, watch, threshold).len() ==> over_records(
                    records,
                    watch,
                    threshold,
                )[i] == rest[i - 1]);
        }
    }
}

/// A filesystem outside the watch-list never raises a notification,
/// whatever its used percentage.
pub proof fn lemma_unwatched_never_notified(
    records: Seq<RecordView>,
    watch: Seq<Seq<char>>,
    threshold: int,
    fs: Seq<char>,
)
    requires
        !watch.contains(fs),
    ensures
        forall|i: int|
            0 <= i < notices_of(over_records(records, watch, threshold)).len()
                ==> notices_of(over_records(records, watch, threshold))[i].filesystem != fs,
{
    lemma_over_records_trigger(records, watch, threshold);
    let over = over_records(records, watch, threshold);
    assert forall|i: int|
        0 <= i < notices_of(over).len() implies notices_of(over)[i].filesystem != fs by {
        assert(triggers(over[i], watch, threshold));
        assert(notices_of(over)[i] == notice_of(over[i]));
    }
}

} // verus!
