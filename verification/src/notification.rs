//! Notifications: visual variants, creation options, the queue that holds
//! notifications until a host is mounted, and the host's stack of visible
//! notifications with its exit and removal bookkeeping.
use vstd::prelude::*;

verus! {

/// Visual intent of a notification.
#[derive(Debug, Clone, Copy, PartialEq, Eq)]
pub enum NotificationVariant {
    Info,
    Success,
    Warning,
    Error,
}

impl Default for NotificationVariant {
    fn default() -> (r: Self)
        ensures
            r == NotificationVariant::Info,
    {
        NotificationVariant::Info
    }
}

/// How long a variant stays visible by default, in milliseconds.
pub open spec fn default_duration(variant: NotificationVariant) -> i32 {
    match variant {
        NotificationVariant::Info | NotificationVariant::Success => 4200,
        NotificationVariant::Warning => 5600,
        NotificationVariant::Error => 6800,
    }
}

impl NotificationVariant {
    /// The variant's CSS modifier class.
    pub fn class_name(self) -> (r: &'static str)
        ensures
            r@ == match self {
                NotificationVariant::Info => "birei-notification--info"@,
                NotificationVariant::Success => "birei-notification--success"@,
                NotificationVariant::Warning => "birei-notification--warning"@,
                NotificationVariant::Error => "birei-notification--error"@,
            },
    {
        match self {
            NotificationVariant::Info => "birei-notification--info",
            NotificationVariant::Success => "birei-notification--success",
            NotificationVariant::Warning => "birei-notification--warning",
            NotificationVariant::Error => "birei-notification--error",
        }
    }

    /// The icon shown with the variant.
    pub fn icon_name(self) -> (r: &'static str)
        ensures
            r@ == match self {
                NotificationVariant::Info => "info"@,
                NotificationVariant::Success => "circle-check"@,
                NotificationVariant::Warning => "triangle-alert"@,
                NotificationVariant::Error => "circle-x"@,
            },
    {
        match self {
            NotificationVariant::Info => "info",
            NotificationVariant::Success => "circle-check",
            NotificationVariant::Warning => "triangle-alert",
            NotificationVariant::Error => "circle-x",
        }
    }

    /// The default display duration in milliseconds.
    pub fn default_duration_ms(self) -> (r: i32)
        ensures
            r == default_duration(self),
    {
        match self {
            NotificationVariant::Info | NotificationVariant::Success => 4200,
            NotificationVariant::Warning => 5600,
            NotificationVariant::Error => 6800,
        }
    }
}

/// Options used to create a notification.
#[derive(Debug)]
pub struct NotificationOptions {
    pub text: String,
    pub variant: NotificationVariant,
    pub duration_ms: Option<i32>,
}

impl NotificationOptions {
    /// Plain text with `Info` styling and the variant's default duration.
    pub fn new<T: Into<String>>(text: T) -> (r: Self)
        ensures
            call_ensures(T::into, (text,), r.text),
            r.variant == NotificationVariant::Info,
            r.duration_ms is None,
    {
        NotificationOptions { text: text.into(), variant: NotificationVariant::Info, duration_ms: None }
    }

    /// Overrides the visual variant.
    pub fn variant(self, variant: NotificationVariant) -> (r: Self)
        ensures
            r.text == self.text,
            r.duration_ms == self.duration_ms,
            r.variant == variant,
    {
        NotificationOptions { variant, ..self }
    }

    /// Overrides the auto-hide timeout; negative values become zero.
    pub fn duration_ms(self, duration_ms: i32) -> (r: Self)
        ensures
            r.text == self.text,
            r.variant == self.variant,
            r.duration_ms == Some(if duration_ms > 0 {
                duration_ms
            } else {
                0i32
            }),
    {
        let d = if duration_ms > 0 {
            duration_ms
        } else {
            0
        };
        NotificationOptions { duration_ms: Some(d), ..self }
    }
}

/// A notification as the host shows it.
#[derive(Debug)]
pub struct NotificationRecord {
    pub id: usize,
    pub text: String,
    pub variant: NotificationVariant,
    pub duration_ms: i32,
}

/// The record for `options` under identifier `id`: an explicit duration wins
/// over the variant's default.
pub fn notification_record(id: usize, options: NotificationOptions) -> (r: NotificationRecord)
    ensures
        r.id == id,
        r.text == options.text,
        r.variant == options.variant,
        r.duration_ms == match options.duration_ms {
            Some(d) => d,
            None => default_duration(options.variant),
        },
{
    let duration_ms = match options.duration_ms {
        Some(d) => d,
        None => options.variant.default_duration_ms(),
    };
    NotificationRecord { id, text: options.text, variant: options.variant, duration_ms }
}

/// The manager's own state: whether a host was mounted and attached, and the
/// notifications waiting for it (newest first). Identifiers are not drawn
/// here: they come from one counter shared by the whole process, which the
/// caller owns and passes to `notify`.
pub struct NotificationQueue {
    pub mounted: bool,
    pub attached: bool,
    pub pending: Vec<NotificationRecord>,
}

pub open spec fn record_ids(records: Seq<NotificationRecord>) -> Seq<usize> {
    records.map_values(|r: NotificationRecord| r.id)
}

/// Whether `rec` is the notification that `options` describe, under `id`: its
/// text and variant, and the explicit duration or else the variant's default.
pub open spec fn shows(rec: NotificationRecord, id: usize, options: NotificationOptions) -> bool {
    &&& rec.id == id
    &&& rec.text == options.text
    &&& rec.variant == options.variant
    &&& rec.duration_ms == match options.duration_ms {
        Some(d) => d,
        None => default_duration(options.variant),
    }
}

impl NotificationQueue {
    /// A queue before any host exists.
    pub fn new() -> (r: Self)
        ensures
            !r.mounted,
            !r.attached,
            r.pending@.len() == 0,
    {
        NotificationQueue { mounted: false, attached: false, pending: Vec::new() }
    }

    /// Decides whether this call mounts the host: only the first call does.
    pub fn claim_mount(&mut self) -> (r: bool)
        ensures
            r == !old(self).mounted,
            final(self).mounted,
            final(self).attached == old(self).attached,
            final(self).pending@ == old(self).pending@,
    {
        if self.mounted {
            false
        } else {
            self.mounted = true;
            true
        }
    }

    /// Creates the notification `options` describe under `id`, the value the
    /// process-wide counter handed out. With a host attached the record is
    /// handed back for the host; otherwise it waits at the front of the queue.
    pub fn notify(&mut self, id: usize, options: NotificationOptions) -> (r: Option<NotificationRecord>)
        ensures
            final(self).mounted == old(self).mounted,
            final(self).attached == old(self).attached,
            old(self).attached ==> (r matches Some(rec) && shows(rec, id, options) && final(self).pending@
                == old(self).pending@),
            !old(self).attached ==> (r is None && final(self).pending@.len() == old(self).pending@.len() + 1
                && shows(final(self).pending@[0], id, options) && final(self).pending@.drop_first() == old(
                self,
            ).pending@),
    {
        let record = notification_record(id, options);
        if self.attached {
            Some(record)
        } else {
            self.pending.insert(0, record);
            proof {
                assert(self.pending@.drop_first() =~= old(self).pending@);
            }
            None
        }
    }

    /// Dismisses a notification. With a host attached the request is handed
    /// on (`true`); otherwise the waiting notification with that id is dropped.
    pub fn remove(&mut self, id: usize) -> (r: bool)
        ensures
            r == old(self).attached,
            final(self).attached == old(self).attached,
            final(self).mounted == old(self).mounted,
            old(self).attached ==> final(self).pending@ == old(self).pending@,
            !old(self).attached ==> final(self).pending@ == old(self).pending@.filter(
                |rec: NotificationRecord| rec.id != id,
            ),
    {
        if self.attached {
            return true;
        }
        let mut kept: Vec<NotificationRecord> = Vec::new();
        let mut old_pending: Vec<NotificationRecord> = Vec::new();
        std::mem::swap(&mut old_pending, &mut self.pending);
        let ghost orig = old_pending@;
        let ghost pred = |rec: NotificationRecord| rec.id != id;
        let mut rest = old_pending;
        let mut consumed: Vec<NotificationRecord> = Vec::new();
        reverse_into(rest, &mut consumed);
        proof {
            assert(consumed@ =~= orig.reverse());
        }
        let ghost done: int = 0;
        while consumed.len() > 0
            invariant
                pred == (|rec: NotificationRecord| rec.id != id),
                orig.len() == done + consumed@.len(),
                0 <= done <= orig.len(),
                consumed@ == orig.skip(done).reverse(),
                kept@ == orig.take(done).filter(pred),
            decreases consumed.len(),
        {
            let rec = consumed.pop().unwrap();
            proof {
                reveal_with_fuel(Seq::<_>::filter, 1);
                assert(orig.skip(done).reverse().last() == orig[done]);
                assert(orig.skip(done + 1).reverse() =~= orig.skip(done).reverse().drop_last());
                assert(orig.take(done + 1).drop_last() =~= orig.take(done));
                assert(orig.take(done + 1).last() == orig[done]);
            }
            if rec.id != id {
                kept.push(rec);
            }
            proof {
                done = done + 1;
            }
        }
        proof {
            assert(orig.take(orig.len() as int) =~= orig);
        }
        self.pending = kept;
        false
    }

    /// Dismisses everything: the waiting notifications are dropped, and with a
    /// host attached the request is handed on (`true`).
    pub fn clear(&mut self) -> (r: bool)
        ensures
            r == old(self).attached,
            final(self).attached == old(self).attached,
            final(self).mounted == old(self).mounted,
            final(self).pending@.len() == 0,
    {
        self.pending.clear();
        self.attached
    }

    /// Attaches the host and hands it the waiting notifications oldest first,
    /// leaving the queue empty.
    pub fn attach(&mut self) -> (r: Vec<NotificationRecord>)
        ensures
            final(self).attached,
            final(self).mounted == old(self).mounted,
            final(self).pending@.len() == 0,
            r@ == old(self).pending@.reverse(),
    {
        self.attached = true;
        let mut pending: Vec<NotificationRecord> = Vec::new();
        std::mem::swap(&mut pending, &mut self.pending);
        let mut out: Vec<NotificationRecord> = Vec::new();
        reverse_into(pending, &mut out);
        out
    }
}

/// Moves the items of `v`, last first, onto the empty vector `out`.
pub fn reverse_into<T>(v: Vec<T>, out: &mut Vec<T>)
    requires
        old(out)@.len() == 0,
    ensures
        final(out)@ == v@.reverse(),
{
    let mut v = v;
    let ghost orig = v@;
    while v.len() > 0
        invariant
            v@ == orig.take(v@.len() as int),
            v@.len() <= orig.len(),
            out@ == orig.skip(v@.len() as int).reverse(),
        decreases v.len(),
    {
        let ghost n = v@.len();
        let x = v.pop().unwrap();
        proof {
            assert(x == orig[n - 1]);
            assert(orig.take(n - 1) =~= orig.take(n as int).drop_last());
        }
        out.push(x);
        proof {
            assert(orig.skip(n - 1).reverse() =~= orig.skip(n as int).reverse().push(orig[n - 1]));
        }
    }
    proof {
        assert(orig.skip(0) =~= orig);
    }
}

/// The most notifications a host shows at once.
pub const MAX_VISIBLE_NOTIFICATIONS: usize = 48;

/// A notification in the host's stack, with its exit state.
#[derive(Debug)]
pub struct HostedNotification {
    pub record: NotificationRecord,
    pub exiting: bool,
    pub removal_scheduled: bool,
}

/// The host's stack of notifications (newest first) and the number of
/// notifications under the pointer, which pauses removals.
pub struct NotificationStack {
    pub entries: Vec<HostedNotification>,
    pub hovered: usize,
}

pub open spec fn stack_records(entries: Seq<HostedNotification>) -> Seq<NotificationRecord> {
    entries.map_values(|e: HostedNotification| e.record)
}

impl NotificationStack {
    /// The stack never holds more than the visible maximum.
    pub open spec fn well_formed(&self) -> bool {
        self.entries@.len() <= MAX_VISIBLE_NOTIFICATIONS
    }

    /// An empty stack.
    pub fn new() -> (r: Self)
        ensures
            r.well_formed(),
            r.entries@.len() == 0,
            r.hovered == 0,
    {
        NotificationStack { entries: Vec::new(), hovered: 0 }
    }

    /// Shows a notification on top; the oldest ones beyond the maximum are dropped.
    pub fn add(&mut self, record: NotificationRecord)
        requires
            old(self).well_formed(),
        ensures
            final(self).well_formed(),
            final(self).hovered == old(self).hovered,
            final(self).entries@ == seq![
                HostedNotification { record, exiting: false, removal_scheduled: false },
            ].add(old(self).entries@).take(
                if old(self).entries@.len() + 1 > MAX_VISIBLE_NOTIFICATIONS {
                    MAX_VISIBLE_NOTIFICATIONS as int
                } else {
                    (old(self).entries@.len() + 1) as int
                },
            ),
    {
        let ghost before = self.entries@;
        let entry = HostedNotification { record, exiting: false, removal_scheduled: false };
        let ghost e = entry;
        self.entries.insert(0, entry);
        proof {
            assert(self.entries@ =~= seq![e].add(before));
        }
        if self.entries.len() > MAX_VISIBLE_NOTIFICATIONS {
            self.entries.truncate(MAX_VISIBLE_NOTIFICATIONS);
        }
        proof {
            assert(self.entries@ =~= seq![e].add(before).take(
                if before.len() + 1 > MAX_VISIBLE_NOTIFICATIONS {
                    MAX_VISIBLE_NOTIFICATIONS as int
                } else {
                    (before.len() + 1) as int
                },
            ));
        }
    }

    /// Starts the exit of the first notification with `id` unless it is already
    /// exiting; says whether exiting notifications should be scheduled now.
    pub fn remove(&mut self, id: usize) -> (r: bool)
        requires
            old(self).well_formed(),
        ensures
            final(self).well_formed(),
            final(self).hovered == old(self).hovered,
            final(self).entries@.len() == old(self).entries@.len(),
            stack_records(final(self).entries@) == stack_records(old(self).entries@),
            match first_with_id(old(self).entries@, id) {
                Some(i) => if !old(self).entries@[i].exiting {
                    &&& r == (old(self).hovered == 0)
                    &&& final(self).entries@[i].exiting
                    &&& !final(self).entries@[i].removal_scheduled
                    &&& forall|j: int|
                        0 <= j < old(self).entries@.len() && j != i ==> final(self).entries@[j]
                            == old(self).entries@[j]
                } else {
                    !r && final(self).entries@ == old(self).entries@
                },
                None => !r && final(self).entries@ == old(self).entries@,
            },
    {
        let mut i: usize = 0;
        while i < self.entries.len()
            invariant
                0 <= i <= self.entries@.len(),
                self.entries@ == old(self).entries@,
                self.hovered == old(self).hovered,
                old(self).well_formed(),
                forall|j: int| 0 <= j < i ==> self.entries@[j].record.id != id,
            decreases self.entries.len() - i,
        {
            if self.entries[i].record.id == id {
                proof {
                    lemma_first_with_id(self.entries@, id, i as int);
                }
                if self.entries[i].exiting {
                    return false;
                }
                let should = self.hovered == 0;
                let ghost before = self.entries@;
                let mut entries: Vec<HostedNotification> = Vec::new();
                std::mem::swap(&mut entries, &mut self.entries);
                let old_entry = entries.remove(i);
                let updated = HostedNotification {
                    record: old_entry.record,
                    exiting: true,
                    removal_scheduled: false,
                };
                entries.insert(i, updated);
                self.entries = entries;
                proof {
                    assert(stack_records(self.entries@) =~= stack_records(before));
                }
                return should;
            }
            i = i + 1;
        }
        false
    }

    /// Starts the exit of every notification; says whether exiting
    /// notifications should be scheduled now (some were still showing and
    /// nothing is hovered).
    pub fn clear(&mut self) -> (r: bool)
        requires
            old(self).well_formed(),
        ensures
            final(self).well_formed(),
            final(self).hovered == old(self).hovered,
            stack_records(final(self).entries@) == stack_records(old(self).entries@),
            forall|j: int|
                0 <= j < final(self).entries@.len() ==> (#[trigger] final(self).entries@[j]).exiting
                    && !final(self).entries@[j].removal_scheduled,
            r == (old(self).hovered == 0 && exists|j: int|
                0 <= j < old(self).entries@.len() && !(#[trigger] old(self).entries@[j]).exiting),
    {
        let ghost before = self.entries@;
        let mut old_entries: Vec<HostedNotification> = Vec::new();
        std::mem::swap(&mut old_entries, &mut self.entries);
        let mut reversed: Vec<HostedNotification> = Vec::new();
        reverse_into(old_entries, &mut reversed);
        let mut any_showing = false;
        let mut out: Vec<HostedNotification> = Vec::new();
        let ghost done: int = 0;
        while reversed.len() > 0
            invariant
                before.len() == done + reversed@.len(),
                0 <= done <= before.len(),
                reversed@ == before.skip(done).reverse(),
                out@.len() == done,
                forall|j: int| 0 <= j < done ==> (#[trigger] out@[j]).record == before[j].record && out@[j].exiting
                    && !out@[j].removal_scheduled,
                any_showing == exists|j: int| 0 <= j < done && !(#[trigger] before[j]).exiting,
            decreases reversed.len(),
        {
            let entry = reversed.pop().unwrap();
            proof {
                assert(before.skip(done).reverse().last() == before[done]);
                assert(before.skip(done + 1).reverse() =~= before.skip(done).reverse().drop_last());
            }
            if !entry.exiting {
                any_showing = true;
            }
            out.push(HostedNotification { record: entry.record, exiting: true, removal_scheduled: false });
            proof {
                done = done + 1;
            }
        }
        self.entries = out;
        proof {
            assert(stack_records(self.entries@) =~= stack_records(before));
        }
        any_showing && self.hovered == 0
    }

    /// Schedules the removal of the exiting notifications not yet scheduled,
    /// unless a notification is hovered; returns their identifiers in stack order.
    pub fn take_due_removals(&mut self) -> (r: Vec<usize>)
        requires
            old(self).well_formed(),
        ensures
            final(self).well_formed(),
            final(self).hovered == old(self).hovered,
            old(self).hovered > 0 ==> r@.len() == 0 && final(self).entries@ == old(self).entries@,
            old(self).hovered == 0 ==> r@ == record_ids(
                stack_records(
                    old(self).entries@.filter(
                        |e: HostedNotification| e.exiting && !e.removal_scheduled,
                    ),
                ),
            ),
            stack_records(final(self).entries@) == stack_records(old(self).entries@),
            old(self).hovered == 0 ==> forall|j: int|
                0 <= j < final(self).entries@.len() ==> (#[trigger] final(self).entries@[j]).exiting
                    == old(self).entries@[j].exiting && (final(self).entries@[j].removal_scheduled
                    == (old(self).entries@[j].exiting || old(self).entries@[j].removal_scheduled)),
    {
        if self.hovered > 0 {
            return Vec::new();
        }
        let ghost before = self.entries@;
        let ghost pred = |e: HostedNotification| e.exiting && !e.removal_scheduled;
        let mut old_entries: Vec<HostedNotification> = Vec::new();
        std::mem::swap(&mut old_entries, &mut self.entries);
        let mut reversed: Vec<HostedNotification> = Vec::new();
        reverse_into(old_entries, &mut reversed);
        let mut ids: Vec<usize> = Vec::new();
        let mut out: Vec<HostedNotification> = Vec::new();
        let ghost done: int = 0;
        while reversed.len() > 0
            invariant
                pred == (|e: HostedNotification| e.exiting && !e.removal_scheduled),
                before.len() == done + reversed@.len(),
                0 <= done <= before.len(),
                reversed@ == before.skip(done).reverse(),
                out@.len() == done,
                forall|j: int|
                    0 <= j < done ==> (#[trigger] out@[j]).record == before[j].record && out@[j].exiting
                        == before[j].exiting && out@[j].removal_scheduled == (before[j].exiting
                        || before[j].removal_scheduled),
                ids@ == record_ids(stack_records(before.take(done).filter(pred))),
            decreases reversed.len(),
        {
            let entry = reversed.pop().unwrap();
            proof {
                reveal_with_fuel(Seq::<_>::filter, 1);
                assert(before.skip(done).reverse().last() == before[done]);
                assert(before.skip(done + 1).reverse() =~= before.skip(done).reverse().drop_last());
                assert(before.take(done + 1).drop_last() =~= before.take(done));
                assert(before.take(done + 1).last() == before[done]);
            }
            let due = entry.exiting && !entry.removal_scheduled;
            let ghost filtered_before = before.take(done).filter(pred);
            if due {
                ids.push(entry.record.id);
                proof {
                    assert(record_ids(stack_records(filtered_before.push(before[done]))) =~= record_ids(
                        stack_records(filtered_before),
                    ).push(before[done].record.id));
                }
            }
            let scheduled = entry.exiting || entry.removal_scheduled;
            out.push(HostedNotification { record: entry.record, exiting: entry.exiting, removal_scheduled: scheduled });
            proof {
                done = done + 1;
            }
        }
        self.entries = out;
        proof {
            assert(before.take(before.len() as int) =~= before);
            assert(stack_records(self.entries@) =~= stack_records(before));
        }
        ids
    }

    /// Drops the notifications with `id` once their exit finished; the other
    /// entries stay as they were, exit state included, in order.
    pub fn finish_removal(&mut self, id: usize)
        requires
            old(self).well_formed(),
        ensures
            final(self).well_formed(),
            final(self).hovered == old(self).hovered,
            final(self).entries@ == old(self).entries@.filter(
                |e: HostedNotification| e.record.id != id,
            ),
    {
        let ghost before = self.entries@;
        let ghost pred = |e: HostedNotification| e.record.id != id;
        let mut old_entries: Vec<HostedNotification> = Vec::new();
        std::mem::swap(&mut old_entries, &mut self.entries);
        let mut reversed: Vec<HostedNotification> = Vec::new();
        reverse_into(old_entries, &mut reversed);
        let mut out: Vec<HostedNotification> = Vec::new();
        let ghost done: int = 0;
        while reversed.len() > 0
            invariant
                pred == (|e: HostedNotification| e.record.id != id),
                before.len() == done + reversed@.len(),
                0 <= done <= before.len(),
                before.len() <= MAX_VISIBLE_NOTIFICATIONS,
                reversed@ == before.skip(done).reverse(),
                out@ == before.take(done).filter(pred),
                out@.len() <= done,
            decreases reversed.len(),
        {
            let entry = reversed.pop().unwrap();
            proof {
                reveal_with_fuel(Seq::<_>::filter, 1);
                assert(before.skip(done).reverse().last() == before[done]);
                assert(before.skip(done + 1).reverse() =~= before.skip(done).reverse().drop_last());
                assert(before.take(done + 1).drop_last() =~= before.take(done));
                assert(before.take(done + 1).last() == before[done]);
            }
            if entry.record.id != id {
                out.push(entry);
            }
            proof {
                done = done + 1;
            }
        }
        proof {
            assert(before.take(before.len() as int) =~= before);
        }
        self.entries = out;
    }

    /// Tracks the pointer entering or leaving a notification.
    pub fn hover_changed(&mut self, hovered: bool)
        requires
            old(self).well_formed(),
        ensures
            final(self).well_formed(),
            final(self).entries@ == old(self).entries@,
            final(self).hovered == (if hovered {
                if old(self).hovered == usize::MAX {
                    usize::MAX as int
                } else {
                    old(self).hovered + 1
                }
            } else if old(self).hovered > 0 {
                old(self).hovered - 1
            } else {
                0
            }),
    {
        if hovered {
            self.hovered = self.hovered.saturating_add(1);
        } else if self.hovered > 0 {
            self.hovered = self.hovered - 1;
        }
    }
}

/// The position of the first notification with `id`.
pub open spec fn first_with_id(entries: Seq<HostedNotification>, id: usize) -> Option<int> {
    if exists|i: int| 0 <= i < entries.len() && entries[i].record.id == id {
        Some(
            choose|i: int|
                0 <= i < entries.len() && entries[i].record.id == id && forall|j: int|
                    0 <= j < i ==> entries[j].record.id != id,
        )
    } else {
        None
    }
}

proof fn lemma_first_with_id(entries: Seq<HostedNotification>, id: usize, k: int)
    requires
        0 <= k < entries.len(),
        entries[k].record.id == id,
        forall|j: int| 0 <= j < k ==> entries[j].record.id != id,
    ensures
        first_with_id(entries, id) == Some(k),
{
    let w = choose|i: int|
        0 <= i < entries.len() && entries[i].record.id == id && forall|j: int|
            0 <= j < i ==> entries[j].record.id != id;
    assert(0 <= w < entries.len() && entries[w].record.id == id);
    if w < k {
        assert(entries[w].record.id != id);
    }
    if k < w {
        assert(entries[k].record.id != id);
    }
}

/// Notifications made before the host attaches reach it in the order they
/// were made: when `notify` puts a record in front of the waiting list (as its
/// contract states), `attach` hands that record over after all earlier ones.
pub proof fn lemma_waiting_order(before: Seq<NotificationRecord>, after: Seq<NotificationRecord>)
    requires
        after.len() == before.len() + 1,
        after.drop_first() == before,
    ensures
        after.reverse() == before.reverse().push(after[0]),
{
    assert(after =~= seq![after[0]] + before);
    assert(after.reverse() =~= before.reverse().push(after[0]));
}

/// Two notifications made before the host attaches, with nothing dismissed in
/// between, reach the host after all earlier waiting ones, the first made
/// first: when each `notify` put its record in front of the waiting list (as its
/// contract states), the list that `attach` hands over, oldest first, ends with
/// the first record and then the second.
pub proof fn lemma_attach_replays_in_order(
    before: Seq<NotificationRecord>,
    middle: Seq<NotificationRecord>,
    after: Seq<NotificationRecord>,
)
    requires
        middle.len() == before.len() + 1,
        middle.drop_first() == before,
        after.len() == middle.len() + 1,
        after.drop_first() == middle,
    ensures
        after.reverse() == before.reverse() + seq![middle[0], after[0]],
        before.len() == 0 ==> after.reverse() == seq![middle[0], after[0]],
{
    lemma_waiting_order(before, middle);
    lemma_waiting_order(middle, after);
    assert(after.reverse() =~= before.reverse() + seq![middle[0], after[0]]);
    if before.len() == 0 {
        assert(before.reverse() =~= Seq::<NotificationRecord>::empty());
        assert(after.reverse() =~= seq![middle[0], after[0]]);
    }
}

/// Before the host attaches, dismissing a notification right after making it
/// takes back exactly what `notify` queued: when `notify` put the record in
/// front of the waiting list (as its contract states) and no other waiting
/// notification has its id, `remove` leaves the list as it was.
pub proof fn lemma_notify_then_remove(before: Seq<NotificationRecord>, after: Seq<NotificationRecord>)
    requires
        after.len() == before.len() + 1,
        after.drop_first() == before,
        forall|k: int| 0 <= k < before.len() ==> (#[trigger] before[k]).id != after[0].id,
    ensures
        after.filter(|rec: NotificationRecord| rec.id != after[0].id) == before,
{
    let pred = |rec: NotificationRecord| rec.id != after[0].id;
    lemma_filter_keeps_all(before, after[0].id);
    assert(before.filter(pred) == before);
    assert(after =~= seq![after[0]] + before);
    before.lemma_filter_prepend(after[0], pred);
    assert((seq![after[0]] + before).filter(pred) =~= before);
}

proof fn lemma_filter_keeps_all(records: Seq<NotificationRecord>, id: usize)
    requires
        forall|k: int| 0 <= k < records.len() ==> (#[trigger] records[k]).id != id,
    ensures
        records.filter(|rec: NotificationRecord| rec.id != id) == records,
    decreases records.len(),
{
    reveal_with_fuel(Seq::<_>::filter, 1);
    if records.len() > 0 {
        let init = records.drop_last();
        assert forall|k: int| 0 <= k < init.len() implies (#[trigger] init[k]).id != id by {
            assert(init[k] == records[k]);
        }
        lemma_filter_keeps_all(init, id);
        assert(records.last() == records[records.len() - 1]);
        assert(init.push(records.last()) =~= records);
    } else {
        assert(records.filter(|rec: NotificationRecord| rec.id != id) =~= records);
    }
}

/// The class list of a notification row.
pub fn notification_class_name(variant: NotificationVariant, class: Option<&str>) -> (r: String)
    ensures
        r@ == "birei-notification "@ + match variant {
            NotificationVariant::Info => "birei-notification--info"@,
            NotificationVariant::Success => "birei-notification--success"@,
            NotificationVariant::Warning => "birei-notification--warning"@,
            NotificationVariant::Error => "birei-notification--error"@,
        } + crate::text::extra_class(class),
{
    let mut s = crate::text::string_from("birei-notification ");
    crate::text::push_text(&mut s, variant.class_name());
    crate::text::push_extra_class(&mut s, class);
    s
}

/// The accessible label of a notification's icon: the variant's name, then
/// ` notification`.
pub fn notification_icon_label(variant: NotificationVariant) -> (r: &'static str)
    ensures
        r@ == match variant {
            NotificationVariant::Info => "Info notification"@,
            NotificationVariant::Success => "Success notification"@,
            NotificationVariant::Warning => "Warning notification"@,
            NotificationVariant::Error => "Error notification"@,
        },
{
    match variant {
        NotificationVariant::Info => "Info notification",
        NotificationVariant::Success => "Success notification",
        NotificationVariant::Warning => "Warning notification",
        NotificationVariant::Error => "Error notification",
    }
}

/// The class list of a hosted notification: entered once it has appeared and
/// is not leaving, exiting while it leaves.
pub fn toast_class_name(entered: bool, exiting: bool) -> (r: String)
    ensures
        r@ == "birei-notification-toast"@ + (if entered && !exiting {
            " birei-notification-toast--entered"@
        } else {
            Seq::<char>::empty()
        }) + (if exiting {
            " birei-notification-toast--exiting"@
        } else {
            Seq::<char>::empty()
        }),
{
    let mut s = crate::text::string_from("birei-notification-toast");
    crate::select::push_suffix_if(&mut s, entered && !exiting, " birei-notification-toast--entered");
    crate::select::push_suffix_if(&mut s, exiting, " birei-notification-toast--exiting");
    s
}

} // verus!
