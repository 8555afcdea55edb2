//! Research questions and their links to resources, highlights and
//! comments, and the errors of the local database.

use vstd::prelude::*;
use crate::hlc::{hlc_format, HlcClock};
use crate::text::{concat, lemma_seq_lt_asymmetric, lemma_seq_lt_irreflexive, lemma_seq_lt_transitive, seq_lt, str_eq, str_lt};

verus! {

pub const STATUS_ACTIVE: &'static str = "active";
pub const STATUS_ARCHIVED: &'static str = "archived";

pub const TARGET_RESOURCE: &'static str = "resource";
pub const TARGET_HIGHLIGHT: &'static str = "highlight";
pub const TARGET_COMMENT: &'static str = "comment";

/// A tracked question. `status` (active or archived) is independent of
/// deletion.
#[derive(Debug)]
pub struct Question {
    pub id: String,
    pub title: String,
    pub description: Option<String>,
    pub status: String,
    pub archived_at: Option<String>,
    pub created_at: String,
    pub updated_at: String,
}

/// A link from a question to a resource, highlight or comment, with an
/// optional note on why it is relevant.
#[derive(Debug)]
pub struct QuestionLink {
    pub id: String,
    pub question_id: String,
    pub target_type: String,
    pub target_id: String,
    pub reason: Option<String>,
    pub created_at: String,
    pub updated_at: String,
}

/// An optional text as a value.
pub open spec fn opt_view(o: Option<String>) -> Option<Seq<char>> {
    match o {
        Some(s) => Some(s@),
        None => None,
    }
}

/// An optional borrowed text as a value.
pub open spec fn opt_str_view(o: Option<&str>) -> Option<Seq<char>> {
    match o {
        Some(s) => Some(s@),
        None => None,
    }
}

pub fn clone_opt(o: &Option<String>) -> (r: Option<String>)
    ensures
        opt_view(r) == opt_view(*o),
{
    match o {
        Some(s) => Some(s.clone()),
        None => None,
    }
}

pub fn opt_owned(o: Option<&str>) -> (r: Option<String>)
    ensures
        opt_view(r) == opt_str_view(o),
{
    match o {
        Some(s) => Some(s.to_owned()),
        None => None,
    }
}

/// A question as a value.
pub struct QuestionView {
    pub id: Seq<char>,
    pub title: Seq<char>,
    pub description: Option<Seq<char>>,
    pub status: Seq<char>,
    pub archived_at: Option<Seq<char>>,
    pub created_at: Seq<char>,
    pub updated_at: Seq<char>,
}

impl View for Question {
    type V = QuestionView;

    open spec fn view(&self) -> QuestionView {
        QuestionView {
            id: self.id@,
            title: self.title@,
            description: opt_view(self.description),
            status: self.status@,
            archived_at: opt_view(self.archived_at),
            created_at: self.created_at@,
            updated_at: self.updated_at@,
        }
    }
}

impl Clone for Question {
    fn clone(&self) -> (c: Self)
        ensures
            c@ == self@,
    {
        Question {
            id: self.id.clone(),
            title: self.title.clone(),
            description: clone_opt(&self.description),
            status: self.status.clone(),
            archived_at: clone_opt(&self.archived_at),
            created_at: self.created_at.clone(),
            updated_at: self.updated_at.clone(),
        }
    }
}

/// A link as a value.
pub struct LinkView {
    pub id: Seq<char>,
    pub question_id: Seq<char>,
    pub target_type: Seq<char>,
    pub target_id: Seq<char>,
    pub reason: Option<Seq<char>>,
    pub created_at: Seq<char>,
    pub updated_at: Seq<char>,
}

impl View for QuestionLink {
    type V = LinkView;

    open spec fn view(&self) -> LinkView {
        LinkView {
            id: self.id@,
            question_id: self.question_id@,
            target_type: self.target_type@,
            target_id: self.target_id@,
            reason: opt_view(self.reason),
            created_at: self.created_at@,
            updated_at: self.updated_at@,
        }
    }
}

impl Clone for QuestionLink {
    fn clone(&self) -> (c: Self)
        ensures
            c@ == self@,
    {
        QuestionLink {
            id: self.id.clone(),
            question_id: self.question_id.clone(),
            target_type: self.target_type.clone(),
            target_id: self.target_id.clone(),
            reason: clone_opt(&self.reason),
            created_at: self.created_at.clone(),
            updated_at: self.updated_at.clone(),
        }
    }
}

/// Errors of the local database; the storage layer's own errors are kept
/// as their text.
#[derive(Debug)]
pub enum DbError {
    Sqlite(String),
    Migration(String),
    NotFound(String),
    InvalidOperation(String),
    Pool(String),
}

pub open spec fn db_error_message(e: DbError) -> Seq<char> {
    match e {
        DbError::Sqlite(m) => "sqlite error: "@ + m@,
        DbError::Migration(m) => "migration error: "@ + m@,
        DbError::NotFound(m) => "not found: "@ + m@,
        DbError::InvalidOperation(m) => "invalid operation: "@ + m@,
        DbError::Pool(m) => "pool error: "@ + m@,
    }
}

impl DbError {
    /// The error's text (its `Display`).
    pub fn message(&self) -> (s: String)
        ensures
            s@ == db_error_message(*self),
    {
        match self {
            DbError::Sqlite(m) => concat("sqlite error: ", m.as_str()),
            DbError::Migration(m) => concat("migration error: ", m.as_str()),
            DbError::NotFound(m) => concat("not found: ", m.as_str()),
            DbError::InvalidOperation(m) => concat("invalid operation: ", m.as_str()),
            DbError::Pool(m) => concat("pool error: ", m.as_str()),
        }
    }
}

pub open spec fn is_target_type(t: Seq<char>) -> bool {
    t == TARGET_RESOURCE@ || t == TARGET_HIGHLIGHT@ || t == TARGET_COMMENT@
}

/// A link can point at a resource, a highlight or a comment.
pub fn validate_target_type(t: &str) -> (r: Result<(), DbError>)
    ensures
        r is Ok <==> is_target_type(t@),
        r matches Err(e) ==> e matches DbError::InvalidOperation(m) && m@ == "invalid target_type: "@ + t@,
{
    if str_eq(t, TARGET_RESOURCE) || str_eq(t, TARGET_HIGHLIGHT) || str_eq(t, TARGET_COMMENT) {
        Ok(())
    } else {
        Err(DbError::InvalidOperation(concat("invalid target_type: ", t)))
    }
}

/// What a write needs to be recorded in the change log: this device's
/// clock and id.
pub struct SyncContext<'a> {
    pub clock: &'a mut HlcClock,
    pub device_id: &'a str,
}

impl<'a> SyncContext<'a> {
    /// The HLC stamp of the next write, as stored: a tick of the clock.
    pub fn next_hlc(&mut self) -> (s: String)
        requires
            old(self).clock.last_counter() < u32::MAX,
        ensures
            s@ == hlc_format(
                final(self).clock.last_wall(),
                final(self).clock.last_counter(),
                final(self).clock.device(),
            ),
            crate::hlc::hlc_before(
                old(self).clock.last_wall(),
                old(self).clock.last_counter(),
                final(self).clock.last_wall(),
                final(self).clock.last_counter(),
            ),
            final(self).device_id == old(self).device_id,
            final(self).clock.device() == old(self).clock.device(),
            final(self).clock.last_counter() <= old(self).clock.last_counter() + 1,
    {
        let h = self.clock.tick();
        h.to_string()
    }
}


// ─── the two tables and the change log ──────────────────────────────────────

/// A table row as a value: the record, its HLC stamp and when it was
/// soft-deleted.
pub struct Row<T> {
    pub value: T,
    pub hlc: Option<Seq<char>>,
    pub deleted_at: Option<Seq<char>>,
}

/// A row of the questions table.
pub struct QuestionRow {
    pub question: Question,
    pub hlc: Option<String>,
    pub deleted_at: Option<String>,
}

impl View for QuestionRow {
    type V = Row<QuestionView>;

    open spec fn view(&self) -> Row<QuestionView> {
        Row { value: self.question@, hlc: opt_view(self.hlc), deleted_at: opt_view(self.deleted_at) }
    }
}

/// A row of the question links table.
pub struct LinkRow {
    pub link: QuestionLink,
    pub hlc: Option<String>,
    pub deleted_at: Option<String>,
}

impl View for LinkRow {
    type V = Row<LinkView>;

    open spec fn view(&self) -> Row<LinkView> {
        Row { value: self.link@, hlc: opt_view(self.hlc), deleted_at: opt_view(self.deleted_at) }
    }
}

/// The record a change carries to other devices.
#[derive(Debug)]
pub enum ChangePayload {
    Question(Question),
    Link(QuestionLink),
}

pub enum PayloadView {
    Question(QuestionView),
    Link(LinkView),
}

impl View for ChangePayload {
    type V = PayloadView;

    open spec fn view(&self) -> PayloadView {
        match self {
            ChangePayload::Question(q) => PayloadView::Question(q@),
            ChangePayload::Link(l) => PayloadView::Link(l@),
        }
    }
}

/// An entry of the change log that sync uploads.
#[derive(Debug)]
pub struct Change {
    pub entity_type: String,
    pub entity_id: String,
    pub operation: String,
    pub payload: ChangePayload,
    pub hlc: String,
    pub device_id: String,
}

pub struct ChangeView {
    pub entity_type: Seq<char>,
    pub entity_id: Seq<char>,
    pub operation: Seq<char>,
    pub payload: PayloadView,
    pub hlc: Seq<char>,
    pub device_id: Seq<char>,
}

impl View for Change {
    type V = ChangeView;

    open spec fn view(&self) -> ChangeView {
        ChangeView {
            entity_type: self.entity_type@,
            entity_id: self.entity_id@,
            operation: self.operation@,
            payload: self.payload@,
            hlc: self.hlc@,
            device_id: self.device_id@,
        }
    }
}

impl Clone for Change {
    fn clone(&self) -> (c: Self)
        ensures
            c@ == self@,
    {
        let payload = match &self.payload {
            ChangePayload::Question(q) => ChangePayload::Question(q.clone()),
            ChangePayload::Link(l) => ChangePayload::Link(l.clone()),
        };
        Change {
            entity_type: self.entity_type.clone(),
            entity_id: self.entity_id.clone(),
            operation: self.operation.clone(),
            payload,
            hlc: self.hlc.clone(),
            device_id: self.device_id.clone(),
        }
    }
}

pub open spec fn q_ids_distinct(qs: Seq<Row<QuestionView>>) -> bool {
    forall|i: int, j: int| 0 <= i < j < qs.len() ==> qs[i].value.id != qs[j].value.id
}

pub open spec fn l_ids_distinct(ls: Seq<Row<LinkView>>) -> bool {
    forall|i: int, j: int| 0 <= i < j < ls.len() ==> ls[i].value.id != ls[j].value.id
}

/// An alive link for the (question, target type, target) triple.
pub open spec fn l_pair_at(ls: Seq<Row<LinkView>>, i: int, qid: Seq<char>, tt: Seq<char>, tid: Seq<char>) -> bool {
    &&& 0 <= i < ls.len()
    &&& ls[i].deleted_at is None
    &&& ls[i].value.question_id == qid
    &&& ls[i].value.target_type == tt
    &&& ls[i].value.target_id == tid
}

/// At most one alive link per (question, target type, target).
pub open spec fn alive_pairs_unique(ls: Seq<Row<LinkView>>) -> bool {
    forall|i: int, j: int|
        0 <= i < j < ls.len() && ls[i].deleted_at is None && ls[j].deleted_at is None ==> !(
        ls[i].value.question_id == ls[j].value.question_id && ls[i].value.target_type
            == ls[j].value.target_type && ls[i].value.target_id == ls[j].value.target_id)
}

pub open spec fn q_alive_at(qs: Seq<Row<QuestionView>>, i: int, id: Seq<char>) -> bool {
    0 <= i < qs.len() && qs[i].value.id == id && qs[i].deleted_at is None
}

pub open spec fn has_alive_q(qs: Seq<Row<QuestionView>>, id: Seq<char>) -> bool {
    exists|i: int| q_alive_at(qs, i, id)
}

pub open spec fn has_q_id(qs: Seq<Row<QuestionView>>, id: Seq<char>) -> bool {
    exists|i: int| 0 <= i < qs.len() && qs[i].value.id == id
}

pub open spec fn l_alive_at(ls: Seq<Row<LinkView>>, i: int, id: Seq<char>) -> bool {
    0 <= i < ls.len() && ls[i].value.id == id && ls[i].deleted_at is None
}

pub open spec fn has_alive_l(ls: Seq<Row<LinkView>>, id: Seq<char>) -> bool {
    exists|i: int| l_alive_at(ls, i, id)
}

pub open spec fn has_l_id(ls: Seq<Row<LinkView>>, id: Seq<char>) -> bool {
    exists|i: int| 0 <= i < ls.len() && ls[i].value.id == id
}

/// The sync context is kept: present exactly when it was, for the same
/// device and clock.
pub open spec fn ctx_kept<'a>(o: Option<SyncContext<'a>>, f: Option<SyncContext<'a>>) -> bool {
    match (o, f) {
        (None, None) => true,
        (Some(a), Some(b)) => b.device_id@ == a.device_id@ && b.clock.device() == a.clock.device(),
        _ => false,
    }
}

/// The clock can take `n` more ticks without its counter overflowing.
pub open spec fn ctx_room<'a>(ctx: Option<SyncContext<'a>>, n: int) -> bool {
    ctx matches Some(c) ==> c.clock.last_counter() + n <= u32::MAX
}

/// The serialized last timestamp of the context's clock.
pub open spec fn last_stamp<'a>(c: SyncContext<'a>) -> Seq<char> {
    hlc_format(c.clock.last_wall(), c.clock.last_counter(), c.clock.device())
}

/// The clock ticked `1..=n` times: strictly later, counter grown by at most
/// `n`.
pub open spec fn ticked<'a>(o: Option<SyncContext<'a>>, f: Option<SyncContext<'a>>, n: int) -> bool {
    match (o, f) {
        (Some(a), Some(b)) => crate::hlc::hlc_before(
            a.clock.last_wall(),
            a.clock.last_counter(),
            b.clock.last_wall(),
            b.clock.last_counter(),
        ) && b.clock.last_counter() <= a.clock.last_counter() + n,
        _ => true,
    }
}

/// The clock did not tick.
pub open spec fn untouched<'a>(o: Option<SyncContext<'a>>, f: Option<SyncContext<'a>>) -> bool {
    match (o, f) {
        (Some(a), Some(b)) => b.clock.last_wall() == a.clock.last_wall() && b.clock.last_counter()
            == a.clock.last_counter(),
        _ => true,
    }
}

/// The HLC a single-write operation stores: the clock's new stamp when
/// syncing.
pub open spec fn stamp_of<'a>(f: Option<SyncContext<'a>>) -> Option<Seq<char>> {
    match f {
        Some(b) => Some(last_stamp(b)),
        None => None,
    }
}

/// `COALESCE(stamp, hlc)`.
pub open spec fn coalesce(stamp: Option<Seq<char>>, hlc: Option<Seq<char>>) -> Option<Seq<char>> {
    match stamp {
        Some(s) => Some(s),
        None => hlc,
    }
}

/// The change log after one write: with a sync context, one entry stamped
/// with the clock's new timestamp.
pub open spec fn logged<'a>(
    log: Seq<ChangeView>,
    f: Option<SyncContext<'a>>,
    entity_type: Seq<char>,
    entity_id: Seq<char>,
    operation: Seq<char>,
    payload: PayloadView,
) -> Seq<ChangeView> {
    match f {
        Some(b) => log.push(
            ChangeView {
                entity_type,
                entity_id,
                operation,
                payload,
                hlc: last_stamp(b),
                device_id: b.device_id@,
            },
        ),
        None => log,
    }
}

/// Ticks the clock when syncing; the stamp to store.
fn stamp(ctx: &mut Option<SyncContext>) -> (h: Option<String>)
    requires
        ctx_room(*old(ctx), 1),
    ensures
        ctx_kept(*old(ctx), *final(ctx)),
        ticked(*old(ctx), *final(ctx), 1),
        opt_view(h) == stamp_of(*final(ctx)),
{
    match ctx {
        Some(c) => Some(c.next_hlc()),
        None => None,
    }
}

/// Appends a change when syncing.
fn log_change(
    changes: &mut Vec<Change>,
    ctx: &Option<SyncContext>,
    entity_type: &str,
    entity_id: &str,
    operation: &str,
    payload: ChangePayload,
    hlc: &Option<String>,
)
    requires
        opt_view(*hlc) == stamp_of(*ctx),
    ensures
        final(changes)@.map_values(|c: Change| c@) == logged(
            old(changes)@.map_values(|c: Change| c@),
            *ctx,
            entity_type@,
            entity_id@,
            operation@,
            payload@,
        ),
{
    match (ctx, hlc) {
        (Some(c), Some(h)) => {
            let ghost before = changes@;
            changes.push(
                Change {
                    entity_type: entity_type.to_owned(),
                    entity_id: entity_id.to_owned(),
                    operation: operation.to_owned(),
                    payload,
                    hlc: h.clone(),
                    device_id: c.device_id.to_owned(),
                },
            );
            assert(changes@.map_values(|c: Change| c@) =~= before.map_values(|c: Change| c@).push(
                changes@.last()@,
            ));
        },
        _ => {},
    }
}

/// The alive links a cascade soft-deletes: those of question `a`, or those
/// pointing at target `(a, b)`.
pub open spec fn doomed(l: Row<LinkView>, by_question: bool, a: Seq<char>, b: Seq<char>) -> bool {
    &&& l.deleted_at is None
    &&& if by_question {
        l.value.question_id == a
    } else {
        l.value.target_type == a && l.value.target_id == b
    }
}

/// `new` is `old` with the doomed links soft-deleted at `now`: stamped when
/// syncing, their stamp kept otherwise.
pub open spec fn killed_rows(
    old: Seq<Row<LinkView>>,
    new: Seq<Row<LinkView>>,
    by_question: bool,
    a: Seq<char>,
    b: Seq<char>,
    now: Seq<char>,
    syncing: bool,
) -> bool {
    &&& new.len() == old.len()
    &&& forall|k: int|
        0 <= k < old.len() ==> if doomed(#[trigger] old[k], by_question, a, b) {
            &&& new[k].value == old[k].value
            &&& new[k].deleted_at == Some(now)
            &&& if syncing {
                new[k].hlc is Some
            } else {
                new[k].hlc == old[k].hlc
            }
        } else {
            new[k] == old[k]
        }
}

/// Number of doomed links.
pub open spec fn count_doomed(ls: Seq<Row<LinkView>>, by_question: bool, a: Seq<char>, b: Seq<char>) -> nat
    decreases ls.len(),
{
    if ls.len() == 0 {
        0
    } else {
        count_doomed(ls.drop_last(), by_question, a, b) + if doomed(ls.last(), by_question, a, b) {
            1nat
        } else {
            0nat
        }
    }
}

/// One DELETE entry per doomed link, in table order, each carrying the link
/// as it was and the stamp it got.
pub open spec fn kill_log(
    old: Seq<Row<LinkView>>,
    new: Seq<Row<LinkView>>,
    by_question: bool,
    a: Seq<char>,
    b: Seq<char>,
    device: Seq<char>,
) -> Seq<ChangeView>
    decreases old.len(),
{
    if old.len() == 0 {
        Seq::<ChangeView>::empty()
    } else {
        let k = old.len() - 1;
        let rest = kill_log(old.drop_last(), new.take(k), by_question, a, b, device);
        if doomed(old[k], by_question, a, b) {
            rest.push(
                ChangeView {
                    entity_type: "question_link"@,
                    entity_id: old[k].value.id,
                    operation: "DELETE"@,
                    payload: PayloadView::Link(old[k].value),
                    hlc: new[k].hlc->0,
                    device_id: device,
                },
            )
        } else {
            rest
        }
    }
}

/// The entries a cascade adds to the log: none without a sync context.
pub open spec fn cascade_log<'a>(
    old: Seq<Row<LinkView>>,
    new: Seq<Row<LinkView>>,
    by_question: bool,
    a: Seq<char>,
    b: Seq<char>,
    ctx: Option<SyncContext<'a>>,
) -> Seq<ChangeView> {
    match ctx {
        Some(c) => kill_log(old, new, by_question, a, b, c.device_id@),
        None => Seq::<ChangeView>::empty(),
    }
}

proof fn lemma_count_doomed_bound(ls: Seq<Row<LinkView>>, by_question: bool, a: Seq<char>, b: Seq<char>)
    ensures
        count_doomed(ls, by_question, a, b) <= ls.len(),
    decreases ls.len(),
{
    if ls.len() > 0 {
        lemma_count_doomed_bound(ls.drop_last(), by_question, a, b);
    }
}

proof fn lemma_kill_log_prefix(
    old: Seq<Row<LinkView>>,
    new1: Seq<Row<LinkView>>,
    new2: Seq<Row<LinkView>>,
    by_question: bool,
    a: Seq<char>,
    b: Seq<char>,
    device: Seq<char>,
)
    requires
        new1.len() >= old.len(),
        new2.len() >= old.len(),
        forall|k: int| 0 <= k < old.len() ==> new1[k] == new2[k],
    ensures
        kill_log(old, new1, by_question, a, b, device) == kill_log(old, new2, by_question, a, b, device),
    decreases old.len(),
{
    if old.len() > 0 {
        let k = old.len() - 1;
        lemma_kill_log_prefix(old.drop_last(), new1.take(k), new2.take(k), by_question, a, b, device);
    }
}

// ─── ordering of query results ──────────────────────────────────────────────

/// Where a stable insertion puts `x` into `s`: before the first element
/// that `x` must precede.
pub open spec fn slot<T>(s: Seq<T>, x: T, before: spec_fn(T, T) -> bool) -> int
    decreases s.len(),
{
    if s.len() == 0 || before(x, s[0]) {
        0
    } else {
        1 + slot(s.drop_first(), x, before)
    }
}

/// Stable insertion sort by the strict order `before`: elements that neither
/// precedes keep their order.
pub open spec fn stable_sort<T>(s: Seq<T>, before: spec_fn(T, T) -> bool) -> Seq<T>
    decreases s.len(),
{
    if s.len() == 0 {
        Seq::<T>::empty()
    } else {
        let r = stable_sort(s.drop_last(), before);
        r.insert(slot(r, s.last(), before), s.last())
    }
}

proof fn lemma_slot<T>(s: Seq<T>, x: T, before: spec_fn(T, T) -> bool, j: int)
    requires
        0 <= j <= s.len(),
        forall|k: int| 0 <= k < j ==> !before(x, #[trigger] s[k]),
        j == s.len() || before(x, s[j]),
    ensures
        slot(s, x, before) == j,
    decreases j,
{
    if j > 0 {
        assert(!before(x, s[0]));
        assert forall|k: int| 0 <= k < j - 1 implies !before(x, #[trigger] s.drop_first()[k]) by {
            assert(s.drop_first()[k] == s[k + 1]);
        }
        if j < s.len() {
            assert(s.drop_first()[j - 1] == s[j]);
        }
        lemma_slot(s.drop_first(), x, before, j - 1);
    }
}

/// `before` is a strict order: transitive and asymmetric.
pub open spec fn strict_order<T>(before: spec_fn(T, T) -> bool) -> bool {
    &&& forall|a: T, b: T, c: T| #![trigger before(a, b), before(b, c)]
        before(a, b) && before(b, c) ==> before(a, c)
    &&& forall|a: T, b: T| #[trigger] before(a, b) ==> !before(b, a)
}

/// No element of `s` comes after one that must follow it.
pub open spec fn sorted_by<T>(s: Seq<T>, before: spec_fn(T, T) -> bool) -> bool {
    forall|i: int, j: int| 0 <= i < j < s.len() ==> !before(#[trigger] s[j], #[trigger] s[i])
}

proof fn lemma_slot_bounds<T>(s: Seq<T>, x: T, before: spec_fn(T, T) -> bool)
    ensures
        0 <= slot(s, x, before) <= s.len(),
        forall|k: int| 0 <= k < slot(s, x, before) ==> !before(x, #[trigger] s[k]),
        slot(s, x, before) < s.len() ==> before(x, s[slot(s, x, before)]),
    decreases s.len(),
{
    if s.len() > 0 && !before(x, s[0]) {
        let t = s.drop_first();
        lemma_slot_bounds(t, x, before);
        assert forall|k: int| 0 <= k < slot(s, x, before) implies !before(x, #[trigger] s[k]) by {
            if k > 0 {
                assert(s[k] == t[k - 1]);
            }
        }
        if slot(s, x, before) < s.len() {
            assert(s[slot(s, x, before)] == t[slot(t, x, before)]);
        }
    }
}

proof fn lemma_insert_sorted<T>(r: Seq<T>, x: T, before: spec_fn(T, T) -> bool)
    requires
        strict_order(before),
        sorted_by(r, before),
    ensures
        sorted_by(r.insert(slot(r, x, before), x), before),
{
    lemma_slot_bounds(r, x, before);
    let p = slot(r, x, before);
    let t = r.insert(p, x);
    assert forall|i: int, j: int| 0 <= i < j < t.len() implies !before(#[trigger] t[j], #[trigger] t[i]) by {
        if j < p {
            assert(t[i] == r[i] && t[j] == r[j]);
        } else if j == p {
            assert(t[i] == r[i] && t[j] == x);
        } else if i < p {
            assert(t[i] == r[i] && t[j] == r[j - 1]);
        } else if i == p {
            assert(t[i] == x && t[j] == r[j - 1]);
            assert(before(x, r[p]));
            if j - 1 > p && before(r[j - 1], x) {
                assert(before(r[j - 1], r[p]));
                assert(!before(r[j - 1], r[p]));
            }
        } else {
            assert(t[i] == r[i - 1] && t[j] == r[j - 1]);
        }
    }
}

/// Sorting by a strict order only rearranges (the same number of elements,
/// each taken from the input) and leaves no element after one that must
/// follow it.
pub proof fn lemma_stable_sort_sorted<T>(s: Seq<T>, before: spec_fn(T, T) -> bool)
    requires
        strict_order(before),
    ensures
        stable_sort(s, before).len() == s.len(),
        sorted_by(stable_sort(s, before), before),
        forall|k: int| 0 <= k < s.len() ==> s.contains(#[trigger] stable_sort(s, before)[k]),
    decreases s.len(),
{
    if s.len() > 0 {
        let d = s.drop_last();
        lemma_stable_sort_sorted(d, before);
        let r = stable_sort(d, before);
        lemma_slot_bounds(r, s.last(), before);
        lemma_insert_sorted(r, s.last(), before);
        let p = slot(r, s.last(), before);
        let t = r.insert(p, s.last());
        assert forall|k: int| 0 <= k < s.len() implies s.contains(#[trigger] stable_sort(s, before)[k]) by {
            assert(stable_sort(s, before) == t);
            if k == p {
                assert(s[s.len() - 1] == t[k]);
            } else {
                let m = if k < p { k } else { k - 1 };
                assert(t[k] == r[m]);
                assert(d.contains(r[m]));
                let w = choose|w: int| 0 <= w < d.len() && d[w] == r[m];
                assert(s[w] == d[w]);
            }
        }
    }
}

/// The ordering key of a question in lists: when it was archived for an
/// archived question, when it was last updated otherwise.
pub open spec fn list_key(q: QuestionView) -> Seq<char> {
    if q.status == STATUS_ARCHIVED@ {
        match q.archived_at {
            Some(t) => t,
            None => Seq::<char>::empty(),
        }
    } else {
        q.updated_at
    }
}

/// `ORDER BY key DESC`, or with `by_status`,
/// `ORDER BY status ASC, key DESC`.
pub open spec fn list_before(a: QuestionView, b: QuestionView, by_status: bool) -> bool {
    if by_status && a.status != b.status {
        seq_lt(a.status, b.status)
    } else {
        seq_lt(list_key(b), list_key(a))
    }
}

/// `ORDER BY updated_at DESC`.
pub open spec fn newer_update(a: QuestionView, b: QuestionView) -> bool {
    seq_lt(b.updated_at, a.updated_at)
}

/// `ORDER BY created_at ASC`.
pub open spec fn created_first(a: LinkView, b: LinkView) -> bool {
    seq_lt(a.created_at, b.created_at)
}

/// The alive questions, filtered by status, in table order.
pub open spec fn alive_questions(qs: Seq<Row<QuestionView>>, status: Option<Seq<char>>) -> Seq<QuestionView>
    decreases qs.len(),
{
    if qs.len() == 0 {
        Seq::<QuestionView>::empty()
    } else {
        let rest = alive_questions(qs.drop_last(), status);
        let q = qs.last();
        if q.deleted_at is None && match status {
            Some(s) => q.value.status == s,
            None => true,
        } {
            rest.push(q.value)
        } else {
            rest
        }
    }
}

proof fn lemma_created_first_strict()
    ensures
        strict_order(|a: LinkView, b: LinkView| created_first(a, b)),
{
    let f = |a: LinkView, b: LinkView| created_first(a, b);
    assert forall|a: LinkView, b: LinkView, c: LinkView| #![trigger f(a, b), f(b, c)]
        f(a, b) && f(b, c) implies f(a, c) by {
        lemma_seq_lt_transitive(a.created_at, b.created_at, c.created_at);
    }
    assert forall|a: LinkView, b: LinkView| #[trigger] f(a, b) implies !f(b, a) by {
        lemma_seq_lt_asymmetric(a.created_at, b.created_at);
    }
}

proof fn lemma_list_before_strict(by_status: bool)
    ensures
        strict_order(|a: QuestionView, b: QuestionView| list_before(a, b, by_status)),
{
    let f = |a: QuestionView, b: QuestionView| list_before(a, b, by_status);
    assert forall|a: QuestionView, b: QuestionView, c: QuestionView| #![trigger f(a, b), f(b, c)]
        f(a, b) && f(b, c) implies f(a, c) by {
        if by_status && (a.status != b.status || b.status != c.status) {
            if a.status != b.status && b.status != c.status {
                lemma_seq_lt_transitive(a.status, b.status, c.status);
                lemma_seq_lt_irreflexive(a.status);
            } else if a.status != b.status {
                assert(a.status != c.status);
            } else {
                assert(a.status != c.status);
            }
        } else {
            lemma_seq_lt_transitive(list_key(c), list_key(b), list_key(a));
        }
    }
    assert forall|a: QuestionView, b: QuestionView| #[trigger] f(a, b) implies !f(b, a) by {
        lemma_seq_lt_asymmetric(a.status, b.status);
        lemma_seq_lt_asymmetric(list_key(a), list_key(b));
    }
}

proof fn lemma_alive_questions_status(qs: Seq<Row<QuestionView>>, s: Seq<char>)
    ensures
        forall|k: int| 0 <= k < alive_questions(qs, Some(s)).len() ==> (#[trigger] alive_questions(qs, Some(s))[k]).status == s,
    decreases qs.len(),
{
    if qs.len() > 0 {
        lemma_alive_questions_status(qs.drop_last(), s);
    }
}

/// Law: the links listed for a question come oldest first: no link is
/// listed after a link created later than it.
pub proof fn lemma_links_oldest_first(ls: Seq<Row<LinkView>>, qid: Seq<char>, out: Seq<LinkView>)
    requires
        out == stable_sort(alive_links_of(ls, qid), |a: LinkView, b: LinkView| created_first(a, b)),
    ensures
        out.len() == alive_links_of(ls, qid).len(),
        forall|i: int, j: int| #![trigger out[i], out[j]]
            0 <= i < j < out.len() ==> !seq_lt(out[j].created_at, out[i].created_at),
{
    lemma_created_first_strict();
    lemma_stable_sort_sorted(alive_links_of(ls, qid), |a: LinkView, b: LinkView| created_first(a, b));
}

/// Law: listing the questions of one status gives only questions of that
/// status; for a status other than `archived` the most recently updated come
/// first, and for `archived` the most recently archived come first.
pub proof fn lemma_questions_of_status_order(qs: Seq<Row<QuestionView>>, s: Seq<char>, out: Seq<QuestionView>)
    requires
        out == stable_sort(alive_questions(qs, Some(s)), |a: QuestionView, b: QuestionView| list_before(a, b, false)),
    ensures
        out.len() == alive_questions(qs, Some(s)).len(),
        forall|k: int| 0 <= k < out.len() ==> (#[trigger] out[k]).status == s,
        s != STATUS_ARCHIVED@ ==> forall|i: int, j: int| #![trigger out[i], out[j]]
            0 <= i < j < out.len() ==> !seq_lt(out[i].updated_at, out[j].updated_at),
        s == STATUS_ARCHIVED@ ==> forall|i: int, j: int| #![trigger out[i], out[j]]
            0 <= i < j < out.len() && out[i].archived_at is Some && out[j].archived_at is Some
                ==> !seq_lt(out[i].archived_at->0, out[j].archived_at->0),
{
    let a = alive_questions(qs, Some(s));
    let f = |x: QuestionView, y: QuestionView| list_before(x, y, false);
    lemma_list_before_strict(false);
    lemma_stable_sort_sorted(a, f);
    lemma_alive_questions_status(qs, s);
    assert forall|k: int| 0 <= k < out.len() implies (#[trigger] out[k]).status == s by {
        assert(a.contains(out[k]));
        let w = choose|w: int| 0 <= w < a.len() && a[w] == out[k];
        assert(a[w].status == s);
    }
    assert forall|i: int, j: int| #![trigger out[i], out[j]] 0 <= i < j < out.len() implies
        !seq_lt(list_key(out[i]), list_key(out[j])) by {
        assert(!f(out[j], out[i]));
    }
}

/// Law: listing all questions orders them by status (`active` before
/// `archived`), and within the active ones the most recently updated first.
pub proof fn lemma_all_questions_order(qs: Seq<Row<QuestionView>>, out: Seq<QuestionView>)
    requires
        out == stable_sort(alive_questions(qs, None), |a: QuestionView, b: QuestionView| list_before(a, b, true)),
    ensures
        out.len() == alive_questions(qs, None).len(),
        forall|i: int, j: int| #![trigger out[i], out[j]]
            0 <= i < j < out.len() ==> !seq_lt(out[j].status, out[i].status),
        forall|i: int, j: int| #![trigger out[i], out[j]]
            0 <= i < j < out.len() && out[i].status == out[j].status && out[i].status != STATUS_ARCHIVED@
                ==> !seq_lt(out[i].updated_at, out[j].updated_at),
{
    let f = |x: QuestionView, y: QuestionView| list_before(x, y, true);
    lemma_list_before_strict(true);
    lemma_stable_sort_sorted(alive_questions(qs, None), f);
    assert forall|i: int, j: int| #![trigger out[i], out[j]] 0 <= i < j < out.len() implies
        !seq_lt(out[j].status, out[i].status) by {
        assert(!f(out[j], out[i]));
        lemma_seq_lt_irreflexive(out[i].status);
    }
    assert forall|i: int, j: int| #![trigger out[i], out[j]]
        0 <= i < j < out.len() && out[i].status == out[j].status && out[i].status != STATUS_ARCHIVED@ implies
        !seq_lt(out[i].updated_at, out[j].updated_at) by {
        assert(!f(out[j], out[i]));
    }
}

/// Law: ordering by `newer_update` puts the most recently updated first: no
/// question is listed before one updated later than it.
pub proof fn lemma_newest_update_first(s: Seq<QuestionView>, out: Seq<QuestionView>)
    requires
        out == stable_sort(s, |a: QuestionView, b: QuestionView| newer_update(a, b)),
    ensures
        out.len() == s.len(),
        forall|i: int, j: int| #![trigger out[i], out[j]]
            0 <= i < j < out.len() ==> !seq_lt(out[i].updated_at, out[j].updated_at),
{
    let f = |a: QuestionView, b: QuestionView| newer_update(a, b);
    assert forall|a: QuestionView, b: QuestionView, c: QuestionView| #![trigger f(a, b), f(b, c)]
        f(a, b) && f(b, c) implies f(a, c) by {
        lemma_seq_lt_transitive(c.updated_at, b.updated_at, a.updated_at);
    }
    assert forall|a: QuestionView, b: QuestionView| #[trigger] f(a, b) implies !f(b, a) by {
        lemma_seq_lt_asymmetric(a.updated_at, b.updated_at);
    }
    lemma_stable_sort_sorted(s, f);
    assert forall|i: int, j: int| #![trigger out[i], out[j]] 0 <= i < j < out.len() implies
        !seq_lt(out[i].updated_at, out[j].updated_at) by {
        assert(!f(out[j], out[i]));
    }
}

/// The alive links of a question, in table order.
pub open spec fn alive_links_of(ls: Seq<Row<LinkView>>, qid: Seq<char>) -> Seq<LinkView>
    decreases ls.len(),
{
    if ls.len() == 0 {
        Seq::<LinkView>::empty()
    } else {
        let rest = alive_links_of(ls.drop_last(), qid);
        if ls.last().deleted_at is None && ls.last().value.question_id == qid {
            rest.push(ls.last().value)
        } else {
            rest
        }
    }
}

/// The alive question with this id, if any.
pub open spec fn alive_q_of(qs: Seq<Row<QuestionView>>, id: Seq<char>) -> Option<QuestionView>
    decreases qs.len(),
{
    if qs.len() == 0 {
        None
    } else if qs.last().value.id == id && qs.last().deleted_at is None {
        Some(qs.last().value)
    } else {
        alive_q_of(qs.drop_last(), id)
    }
}

/// The join of alive links to the target with their alive questions, in
/// link table order.
pub open spec fn target_questions(
    qs: Seq<Row<QuestionView>>,
    ls: Seq<Row<LinkView>>,
    tt: Seq<char>,
    tid: Seq<char>,
) -> Seq<QuestionView>
    decreases ls.len(),
{
    if ls.len() == 0 {
        Seq::<QuestionView>::empty()
    } else {
        let rest = target_questions(qs, ls.drop_last(), tt, tid);
        let l = ls.last();
        if l.deleted_at is None && l.value.target_type == tt && l.value.target_id == tid {
            match alive_q_of(qs, l.value.question_id) {
                Some(q) => rest.push(q),
                None => rest,
            }
        } else {
            rest
        }
    }
}

/// Resource ids (first occurrences) that have questions, each with its
/// questions most recently updated first.
pub open spec fn resource_groups(
    qs: Seq<Row<QuestionView>>,
    ls: Seq<Row<LinkView>>,
    ids: Seq<Seq<char>>,
) -> Seq<(Seq<char>, Seq<QuestionView>)>
    decreases ids.len(),
{
    if ids.len() == 0 {
        Seq::<(Seq<char>, Seq<QuestionView>)>::empty()
    } else {
        let rest = resource_groups(qs, ls, ids.drop_last());
        let r = ids.last();
        let g = stable_sort(
            target_questions(qs, ls, TARGET_RESOURCE@, r),
            |a: QuestionView, b: QuestionView| newer_update(a, b),
        );
        if !ids.drop_last().contains(r) && g.len() > 0 {
            rest.push((r, g))
        } else {
            rest
        }
    }
}

/// Law: in the questions grouped by resource, each group lists its
/// questions most recently updated first.
pub proof fn lemma_resource_group_newest_first(
    qs: Seq<Row<QuestionView>>,
    ls: Seq<Row<LinkView>>,
    ids: Seq<Seq<char>>,
    g: int,
)
    requires
        0 <= g < resource_groups(qs, ls, ids).len(),
    ensures
        forall|i: int, j: int| #![trigger resource_groups(qs, ls, ids)[g].1[i], resource_groups(qs, ls, ids)[g].1[j]]
            0 <= i < j < resource_groups(qs, ls, ids)[g].1.len() ==> !seq_lt(
                resource_groups(qs, ls, ids)[g].1[i].updated_at,
                resource_groups(qs, ls, ids)[g].1[j].updated_at,
            ),
    decreases ids.len(),
{
    let rest = resource_groups(qs, ls, ids.drop_last());
    if g < rest.len() {
        lemma_resource_group_newest_first(qs, ls, ids.drop_last(), g);
        assert(resource_groups(qs, ls, ids)[g] == rest[g]);
    } else {
        let r = ids.last();
        let t = target_questions(qs, ls, TARGET_RESOURCE@, r);
        let grp = stable_sort(t, |a: QuestionView, b: QuestionView| newer_update(a, b));
        assert(resource_groups(qs, ls, ids)[g] == (r, grp));
        lemma_newest_update_first(t, grp);
    }
}

proof fn lemma_alive_q_of(qs: Seq<Row<QuestionView>>, id: Seq<char>, i: int)
    requires
        q_ids_distinct(qs),
        0 <= i < qs.len(),
        qs[i].value.id == id,
    ensures
        alive_q_of(qs, id) == if qs[i].deleted_at is None { Some(qs[i].value) } else { None },
    decreases qs.len(),
{
    if i < qs.len() - 1 {
        assert(qs.last().value.id != id) by {
            assert(qs[i].value.id != qs[qs.len() - 1].value.id);
        }
        assert(qs.drop_last()[i] == qs[i]);
        assert forall|a: int, b: int| 0 <= a < b < qs.drop_last().len() implies qs.drop_last()[a].value.id
            != qs.drop_last()[b].value.id by {
            assert(qs.drop_last()[a] == qs[a] && qs.drop_last()[b] == qs[b]);
        }
        lemma_alive_q_of(qs.drop_last(), id, i);
    } else {
        assert(!has_q_id(qs.drop_last(), id)) by {
            if has_q_id(qs.drop_last(), id) {
                let k = choose|k: int| 0 <= k < qs.drop_last().len() && qs.drop_last()[k].value.id == id;
                assert(qs[k] == qs.drop_last()[k]);
                assert(qs[k].value.id != qs[i].value.id);
            }
        }
        lemma_alive_q_of_none(qs.drop_last(), id);
    }
}

proof fn lemma_alive_q_of_none(qs: Seq<Row<QuestionView>>, id: Seq<char>)
    requires
        !has_q_id(qs, id),
    ensures
        alive_q_of(qs, id) is None,
    decreases qs.len(),
{
    if qs.len() > 0 {
        assert(qs.last().value.id != id) by {
            assert(0 <= qs.len() - 1 < qs.len() && qs[qs.len() - 1] == qs.last());
        }
        assert(!has_q_id(qs.drop_last(), id)) by {
            if has_q_id(qs.drop_last(), id) {
                let k = choose|k: int| 0 <= k < qs.drop_last().len() && qs.drop_last()[k].value.id == id;
                assert(qs[k] == qs.drop_last()[k]);
            }
        }
        lemma_alive_q_of_none(qs.drop_last(), id);
    }
}

fn before_q(a: &Question, b: &Question, by_status: bool) -> (r: bool)
    ensures
        r == list_before(a@, b@, by_status),
{
    if by_status && !str_eq(a.status.as_str(), b.status.as_str()) {
        str_lt(a.status.as_str(), b.status.as_str())
    } else {
        str_lt(key_of(b), key_of(a))
    }
}

fn key_of(q: &Question) -> (k: &str)
    ensures
        k@ == list_key(q@),
{
    proof {
        reveal_strlit("");
    }
    if str_eq(q.status.as_str(), STATUS_ARCHIVED) {
        match &q.archived_at {
            Some(t) => t.as_str(),
            None => "",
        }
    } else {
        q.updated_at.as_str()
    }
}

/// Inserts `x` into the list of questions sorted by `list_before`.
fn insert_question(out: &mut Vec<Question>, x: Question, by_status: bool)
    ensures
        final(out)@.map_values(|q: Question| q@) == old(out)@.map_values(|q: Question| q@).insert(
            slot(old(out)@.map_values(|q: Question| q@), x@, |a: QuestionView, b: QuestionView| list_before(a, b, by_status)),
            x@,
        ),
{
    let ghost s = out@.map_values(|q: Question| q@);
    let ghost f = |a: QuestionView, b: QuestionView| list_before(a, b, by_status);
    let mut j: usize = 0;
    while j < out.len()
        invariant
            0 <= j <= out.len(),
            s == out@.map_values(|q: Question| q@),
            f == (|a: QuestionView, b: QuestionView| list_before(a, b, by_status)),
            forall|k: int| 0 <= k < j ==> !f(x@, #[trigger] s[k]),
        ensures
            0 <= j <= out.len(),
            forall|k: int| 0 <= k < j ==> !f(x@, #[trigger] s[k]),
            j == out.len() || f(x@, s[j as int]),
        decreases out.len() - j,
    {
        if before_q(&x, &out[j], by_status) {
            break;
        }
        j = j + 1;
    }
    proof {
        lemma_slot(s, x@, f, j as int);
    }
    let ghost xv = x@;
    out.insert(j, x);
    assert(out@.map_values(|q: Question| q@) =~= s.insert(j as int, xv));
}

/// Inserts `x` into the list of questions sorted by `newer_update`.
fn insert_by_update(out: &mut Vec<Question>, x: Question)
    ensures
        final(out)@.map_values(|q: Question| q@) == old(out)@.map_values(|q: Question| q@).insert(
            slot(old(out)@.map_values(|q: Question| q@), x@, |a: QuestionView, b: QuestionView| newer_update(a, b)),
            x@,
        ),
{
    let ghost s = out@.map_values(|q: Question| q@);
    let ghost f = |a: QuestionView, b: QuestionView| newer_update(a, b);
    let mut j: usize = 0;
    while j < out.len()
        invariant
            0 <= j <= out.len(),
            s == out@.map_values(|q: Question| q@),
            f == (|a: QuestionView, b: QuestionView| newer_update(a, b)),
            forall|k: int| 0 <= k < j ==> !f(x@, #[trigger] s[k]),
        ensures
            0 <= j <= out.len(),
            forall|k: int| 0 <= k < j ==> !f(x@, #[trigger] s[k]),
            j == out.len() || f(x@, s[j as int]),
        decreases out.len() - j,
    {
        if str_lt(out[j].updated_at.as_str(), x.updated_at.as_str()) {
            break;
        }
        j = j + 1;
    }
    proof {
        lemma_slot(s, x@, f, j as int);
    }
    let ghost xv = x@;
    out.insert(j, x);
    assert(out@.map_values(|q: Question| q@) =~= s.insert(j as int, xv));
}

/// Inserts `x` into the list of links sorted by `created_first`.
fn insert_link(out: &mut Vec<QuestionLink>, x: QuestionLink)
    ensures
        final(out)@.map_values(|l: QuestionLink| l@) == old(out)@.map_values(|l: QuestionLink| l@).insert(
            slot(old(out)@.map_values(|l: QuestionLink| l@), x@, |a: LinkView, b: LinkView| created_first(a, b)),
            x@,
        ),
{
    let ghost s = out@.map_values(|l: QuestionLink| l@);
    let ghost f = |a: LinkView, b: LinkView| created_first(a, b);
    let mut j: usize = 0;
    while j < out.len()
        invariant
            0 <= j <= out.len(),
            s == out@.map_values(|l: QuestionLink| l@),
            f == (|a: LinkView, b: LinkView| created_first(a, b)),
            forall|k: int| 0 <= k < j ==> !f(x@, #[trigger] s[k]),
        ensures
            0 <= j <= out.len(),
            forall|k: int| 0 <= k < j ==> !f(x@, #[trigger] s[k]),
            j == out.len() || f(x@, s[j as int]),
        decreases out.len() - j,
    {
        if str_lt(x.created_at.as_str(), out[j].created_at.as_str()) {
            break;
        }
        j = j + 1;
    }
    proof {
        lemma_slot(s, x@, f, j as int);
    }
    let ghost xv = x@;
    out.insert(j, x);
    assert(out@.map_values(|l: QuestionLink| l@) =~= s.insert(j as int, xv));
}

proof fn lemma_no_alive_links(ls: Seq<Row<LinkView>>, qid: Seq<char>)
    requires
        forall|k: int| 0 <= k < ls.len() && (#[trigger] ls[k]).deleted_at is None ==> ls[k].value.question_id != qid,
    ensures
        alive_links_of(ls, qid).len() == 0,
    decreases ls.len(),
{
    if ls.len() > 0 {
        assert forall|k: int| 0 <= k < ls.drop_last().len() && (#[trigger] ls.drop_last()[k]).deleted_at is None implies ls.drop_last()[k].value.question_id != qid by {
            assert(ls.drop_last()[k] == ls[k]);
        }
        assert(ls.last() == ls[ls.len() - 1]);
        lemma_no_alive_links(ls.drop_last(), qid);
    }
}

proof fn lemma_no_target_questions(qs: Seq<Row<QuestionView>>, ls: Seq<Row<LinkView>>, tt: Seq<char>, tid: Seq<char>)
    requires
        forall|k: int|
            0 <= k < ls.len() && (#[trigger] ls[k]).deleted_at is None ==> !(ls[k].value.target_type == tt
                && ls[k].value.target_id == tid),
    ensures
        target_questions(qs, ls, tt, tid).len() == 0,
    decreases ls.len(),
{
    if ls.len() > 0 {
        assert forall|k: int| 0 <= k < ls.drop_last().len() && (#[trigger] ls.drop_last()[k]).deleted_at is None implies !(
        ls.drop_last()[k].value.target_type == tt && ls.drop_last()[k].value.target_id == tid) by {
            assert(ls.drop_last()[k] == ls[k]);
        }
        assert(ls.last() == ls[ls.len() - 1]);
        lemma_no_target_questions(qs, ls.drop_last(), tt, tid);
    }
}

/// Law: deleting a question leaves it no alive link, so its link list is
/// empty afterwards.
pub proof fn lemma_delete_question_cascades(
    before: Seq<Row<LinkView>>,
    after: Seq<Row<LinkView>>,
    id: Seq<char>,
    now: Seq<char>,
    syncing: bool,
)
    requires
        killed_rows(before, after, true, id, Seq::<char>::empty(), now, syncing),
    ensures
        forall|k: int| 0 <= k < after.len() && (#[trigger] after[k]).deleted_at is None ==> after[k].value.question_id != id,
        stable_sort(alive_links_of(after, id), |a: LinkView, b: LinkView| created_first(a, b)).len() == 0,
{
    assert forall|k: int| 0 <= k < after.len() && (#[trigger] after[k]).deleted_at is None implies after[k].value.question_id != id by {
        if doomed(before[k], true, id, Seq::<char>::empty()) {
        } else {
            assert(after[k] == before[k]);
        }
    }
    lemma_no_alive_links(after, id);
    assert(alive_links_of(after, id) =~= Seq::<LinkView>::empty());
}

/// Law: after a target's links are cascaded away, no alive link points at
/// it and no question is found for it; the other links are untouched.
pub proof fn lemma_target_cascade(
    qs: Seq<Row<QuestionView>>,
    before: Seq<Row<LinkView>>,
    after: Seq<Row<LinkView>>,
    target_type: Seq<char>,
    target_id: Seq<char>,
    now: Seq<char>,
    syncing: bool,
)
    requires
        killed_rows(before, after, false, target_type, target_id, now, syncing),
    ensures
        forall|k: int|
            0 <= k < after.len() && (#[trigger] after[k]).deleted_at is None ==> !(after[k].value.target_type
                == target_type && after[k].value.target_id == target_id),
        forall|k: int|
            0 <= k < before.len() && !(before[k].value.target_type == target_type && before[k].value.target_id
                == target_id) ==> #[trigger] after[k] == before[k],
        target_questions(qs, after, target_type, target_id).len() == 0,
{
    assert forall|k: int|
        0 <= k < after.len() && (#[trigger] after[k]).deleted_at is None implies !(after[k].value.target_type
            == target_type && after[k].value.target_id == target_id) by {
        if doomed(before[k], false, target_type, target_id) {
        } else {
            assert(after[k] == before[k]);
        }
    }
    assert forall|k: int|
        0 <= k < before.len() && !(before[k].value.target_type == target_type && before[k].value.target_id
            == target_id) implies #[trigger] after[k] == before[k] by {
        assert(!doomed(before[k], false, target_type, target_id));
    }
    lemma_no_target_questions(qs, after, target_type, target_id);
}

/// Law: once the alive link to a target is unlinked, none is left for that
/// (question, target), so linking again adds a new row.
pub proof fn lemma_unlink_frees_target(
    before: Seq<Row<LinkView>>,
    i: int,
    hlc: Option<Seq<char>>,
    now: Seq<char>,
)
    requires
        alive_pairs_unique(before),
        0 <= i < before.len(),
        before[i].deleted_at is None,
    ensures
        ({
            let after = before.update(i, Row { value: before[i].value, hlc, deleted_at: Some(now) });
            let l = before[i].value;
            forall|k: int| !l_pair_at(after, k, l.question_id, l.target_type, l.target_id)
        }),
{
    let after = before.update(i, Row { value: before[i].value, hlc, deleted_at: Some(now) });
    let l = before[i].value;
    assert forall|k: int| !l_pair_at(after, k, l.question_id, l.target_type, l.target_id) by {
        if l_pair_at(after, k, l.question_id, l.target_type, l.target_id) {
            assert(k != i);
            assert(after[k] == before[k]);
            if k < i {
            } else {
            }
        }
    }
}

/// The questions and question links tables with the change log that
/// records each write made under a sync context.
pub struct QuestionStore {
    questions: Vec<QuestionRow>,
    links: Vec<LinkRow>,
    changes: Vec<Change>,
}

impl QuestionStore {
    pub closed spec fn questions(&self) -> Seq<Row<QuestionView>> {
        self.questions@.map_values(|r: QuestionRow| r@)
    }

    pub closed spec fn links(&self) -> Seq<Row<LinkView>> {
        self.links@.map_values(|r: LinkRow| r@)
    }

    pub closed spec fn changes(&self) -> Seq<ChangeView> {
        self.changes@.map_values(|c: Change| c@)
    }

    /// Ids are primary keys; an alive link is unique per target.
    pub closed spec fn wf(&self) -> bool {
        &&& q_ids_distinct(self.questions())
        &&& l_ids_distinct(self.links())
        &&& alive_pairs_unique(self.links())
    }

    /// Empty tables.
    pub fn new() -> (s: Self)
        ensures
            s.wf(),
            s.questions().len() == 0,
            s.links().len() == 0,
            s.changes().len() == 0,
    {
        let s = QuestionStore { questions: Vec::new(), links: Vec::new(), changes: Vec::new() };
        assert(s.questions() =~= Seq::<Row<QuestionView>>::empty());
        assert(s.links() =~= Seq::<Row<LinkView>>::empty());
        assert(s.changes() =~= Seq::<ChangeView>::empty());
        s
    }

    /// Tables read back from storage, with an empty change log; `None` when
    /// an id repeats or two alive links share a target.
    pub fn from_rows(questions: Vec<QuestionRow>, links: Vec<LinkRow>) -> (r: Option<Self>)
        ensures
            r is Some <==> (q_ids_distinct(questions@.map_values(|q: QuestionRow| q@)) && l_ids_distinct(
                links@.map_values(|l: LinkRow| l@),
            ) && alive_pairs_unique(links@.map_values(|l: LinkRow| l@))),
            r matches Some(st) ==> st.wf() && st.questions() == questions@.map_values(|q: QuestionRow| q@)
                && st.links() == links@.map_values(|l: LinkRow| l@) && st.changes().len() == 0,
    {
        let ghost qv = questions@.map_values(|q: QuestionRow| q@);
        let ghost lv = links@.map_values(|l: LinkRow| l@);
        let mut i: usize = 0;
        while i < questions.len()
            invariant
                0 <= i <= questions.len(),
                qv == questions@.map_values(|q: QuestionRow| q@),
                forall|a: int, b: int| 0 <= a < b < qv.len() && a < i ==> qv[a].value.id != qv[b].value.id,
            decreases questions.len() - i,
        {
            let mut j: usize = i + 1;
            while j < questions.len()
                invariant
                    i < questions.len(),
                    i + 1 <= j <= questions.len(),
                    qv == questions@.map_values(|q: QuestionRow| q@),
                    forall|a: int, b: int| 0 <= a < b < qv.len() && a < i ==> qv[a].value.id != qv[b].value.id,
                    forall|b: int| i < b < j ==> qv[i as int].value.id != qv[b].value.id,
                decreases questions.len() - j,
            {
                if str_eq(questions[i].question.id.as_str(), questions[j].question.id.as_str()) {
                    assert(qv[i as int].value.id == qv[j as int].value.id);
                    assert(!q_ids_distinct(qv));
                    return None;
                }
                j = j + 1;
            }
            i = i + 1;
        }
        let mut i: usize = 0;
        while i < links.len()
            invariant
                0 <= i <= links.len(),
                lv == links@.map_values(|l: LinkRow| l@),
                forall|a: int, b: int| 0 <= a < b < lv.len() && a < i ==> lv[a].value.id != lv[b].value.id,
                forall|a: int, b: int|
                    0 <= a < b < lv.len() && a < i && lv[a].deleted_at is None && lv[b].deleted_at is None ==> !(
                    lv[a].value.question_id == lv[b].value.question_id && lv[a].value.target_type
                        == lv[b].value.target_type && lv[a].value.target_id == lv[b].value.target_id),
            decreases links.len() - i,
        {
            let mut j: usize = i + 1;
            while j < links.len()
                invariant
                    i < links.len(),
                    i + 1 <= j <= links.len(),
                    lv == links@.map_values(|l: LinkRow| l@),
                    forall|a: int, b: int| 0 <= a < b < lv.len() && a < i ==> lv[a].value.id != lv[b].value.id,
                    forall|a: int, b: int|
                        0 <= a < b < lv.len() && a < i && lv[a].deleted_at is None && lv[b].deleted_at is None ==> !(
                        lv[a].value.question_id == lv[b].value.question_id && lv[a].value.target_type
                            == lv[b].value.target_type && lv[a].value.target_id == lv[b].value.target_id),
                    forall|b: int| i < b < j ==> lv[i as int].value.id != lv[b].value.id,
                    forall|b: int|
                        i < b < j && lv[i as int].deleted_at is None && lv[b].deleted_at is None ==> !(
                        lv[i as int].value.question_id == lv[b].value.question_id && lv[i as int].value.target_type
                            == lv[b].value.target_type && lv[i as int].value.target_id == lv[b].value.target_id),
                decreases links.len() - j,
            {
                let a = &links[i];
                let b = &links[j];
                assert(lv[i as int] == a@ && lv[j as int] == b@);
                if str_eq(a.link.id.as_str(), b.link.id.as_str()) {
                    assert(!l_ids_distinct(lv));
                    return None;
                }
                if a.deleted_at.is_none() && b.deleted_at.is_none() && str_eq(
                    a.link.question_id.as_str(),
                    b.link.question_id.as_str(),
                ) && str_eq(a.link.target_type.as_str(), b.link.target_type.as_str()) && str_eq(
                    a.link.target_id.as_str(),
                    b.link.target_id.as_str(),
                ) {
                    assert(!alive_pairs_unique(lv));
                    return None;
                }
                j = j + 1;
            }
            i = i + 1;
        }
        let st = QuestionStore { questions, links, changes: Vec::new() };
        assert(st.changes() =~= Seq::<ChangeView>::empty());
        Some(st)
    }

    /// The question rows, as stored.
    pub fn question_rows(&self) -> (r: &Vec<QuestionRow>)
        ensures
            r@.map_values(|q: QuestionRow| q@) == self.questions(),
    {
        &self.questions
    }

    /// The link rows, as stored.
    pub fn link_rows(&self) -> (r: &Vec<LinkRow>)
        ensures
            r@.map_values(|l: LinkRow| l@) == self.links(),
    {
        &self.links
    }

    /// Hands over the change log (to be written to the sync log) and
    /// starts a new one.
    pub fn take_changes(&mut self) -> (r: Vec<Change>)
        requires
            old(self).wf(),
        ensures
            final(self).wf(),
            r@.map_values(|c: Change| c@) == old(self).changes(),
            final(self).changes().len() == 0,
            final(self).questions() == old(self).questions(),
            final(self).links() == old(self).links(),
    {
        let mut out: Vec<Change> = Vec::new();
        std::mem::swap(&mut out, &mut self.changes);
        assert(self.changes() =~= Seq::<ChangeView>::empty());
        out
    }

    /// The change log, oldest first.
    pub fn change_log(&self) -> (r: Vec<Change>)
        ensures
            r@.map_values(|c: Change| c@) == self.changes(),
    {
        let mut r: Vec<Change> = Vec::new();
        let mut i: usize = 0;
        while i < self.changes.len()
            invariant
                0 <= i <= self.changes.len(),
                r@.map_values(|c: Change| c@) == self.changes().take(i as int),
            decreases self.changes.len() - i,
        {
            let c = self.changes[i].clone();
            let ghost before = r@;
            r.push(c);
            assert(r@ == before.push(c));
            assert(c@ == self.changes()[i as int]);
            assert(r@.map_values(|c: Change| c@) =~= before.map_values(|c: Change| c@).push(c@));
            assert(self.changes().take(i + 1) =~= self.changes().take(i as int).push(self.changes()[i as int]));
            i = i + 1;
        }
        assert(self.changes().take(i as int) =~= self.changes());
        r
    }

    /// Position of the question row with this id.
    fn question_pos(&self, id: &str) -> (r: Option<usize>)
        requires
            self.wf(),
        ensures
            r matches Some(i) ==> i < self.questions().len() && self.questions()[i as int].value.id == id@,
            r is None ==> !has_q_id(self.questions(), id@),
    {
        let mut i: usize = 0;
        while i < self.questions.len()
            invariant
                0 <= i <= self.questions.len(),
                forall|k: int| 0 <= k < i ==> self.questions()[k].value.id != id@,
            decreases self.questions.len() - i,
        {
            if str_eq(self.questions[i].question.id.as_str(), id) {
                return Some(i);
            }
            i = i + 1;
        }
        None
    }

    /// Position of the alive question with this id.
    fn alive_question(&self, id: &str) -> (r: Option<usize>)
        requires
            self.wf(),
        ensures
            r matches Some(i) ==> q_alive_at(self.questions(), i as int, id@),
            r is None ==> !has_alive_q(self.questions(), id@),
    {
        match self.question_pos(id) {
            Some(i) => {
                if self.questions[i].deleted_at.is_none() {
                    Some(i)
                } else {
                    None
                }
            },
            None => None,
        }
    }

    /// The alive question with this id.
    pub fn get_question(&self, id: &str) -> (r: Result<Question, DbError>)
        requires
            self.wf(),
        ensures
            r is Ok <==> has_alive_q(self.questions(), id@),
            r matches Ok(q) ==> exists|i: int| q_alive_at(self.questions(), i, id@) && q@ == self.questions()[i].value,
            r matches Err(e) ==> e matches DbError::NotFound(m) && m@ == "question "@ + id@,
    {
        match self.alive_question(id) {
            Some(i) => Ok(self.questions[i].question.clone()),
            None => Err(DbError::NotFound(concat("question ", id))),
        }
    }

    /// Adds an active question with the given id, created and updated at
    /// `now`; logged as an INSERT when syncing.
    pub fn create_question(
        &mut self,
        id: String,
        now: String,
        title: &str,
        description: Option<&str>,
        ctx: &mut Option<SyncContext>,
    ) -> (r: Result<Question, DbError>)
        requires
            old(self).wf(),
            ctx_room(*old(ctx), 1),
        ensures
            final(self).wf(),
            ctx_kept(*old(ctx), *final(ctx)),
            ticked(*old(ctx), *final(ctx), 1),
            final(self).links() == old(self).links(),
            r is Ok <==> !has_q_id(old(self).questions(), id@),
            r matches Err(e) ==> e matches DbError::Sqlite(m) && m@ == "UNIQUE constraint failed: questions.id"@
                && final(self).questions() == old(self).questions() && final(self).changes() == old(self).changes(),
            r matches Ok(q) ==> {
                &&& q@ == (QuestionView {
                    id: id@,
                    title: title@,
                    description: opt_str_view(description),
                    status: STATUS_ACTIVE@,
                    archived_at: None,
                    created_at: now@,
                    updated_at: now@,
                })
                &&& final(self).questions() == old(self).questions().push(
                    Row { value: q@, hlc: stamp_of(*final(ctx)), deleted_at: None },
                )
                &&& final(self).changes() == logged(
                    old(self).changes(),
                    *final(ctx),
                    "question"@,
                    id@,
                    "INSERT"@,
                    PayloadView::Question(q@),
                )
            },
    {
        let hlc = stamp(ctx);
        if self.question_pos(id.as_str()).is_some() {
            return Err(DbError::Sqlite("UNIQUE constraint failed: questions.id".to_owned()));
        }
        let q = Question {
            id: id,
            title: title.to_owned(),
            description: opt_owned(description),
            status: STATUS_ACTIVE.to_owned(),
            archived_at: None,
            created_at: now.clone(),
            updated_at: now,
        };
        let ghost qs = self.questions();
        self.questions.push(QuestionRow { question: q.clone(), hlc: clone_opt(&hlc), deleted_at: None });
        assert(self.questions() =~= qs.push(self.questions@.last()@));
        log_change(&mut self.changes, ctx, "question", q.id.as_str(), "INSERT", ChangePayload::Question(q.clone()), &hlc);
        Ok(q)
    }

    /// Replaces the question row at `i`, keeping its id.
    fn set_question_row(&mut self, i: usize, row: QuestionRow)
        requires
            old(self).wf(),
            i < old(self).questions().len(),
            row.question.id@ == old(self).questions()[i as int].value.id,
        ensures
            final(self).wf(),
            final(self).questions() == old(self).questions().update(i as int, row@),
            final(self).links() == old(self).links(),
            final(self).changes() == old(self).changes(),
    {
        let ghost qs = self.questions();
        self.questions.set(i, row);
        assert(self.questions() =~= qs.update(i as int, row@));
    }

    /// Sets title, description and update time of an alive question;
    /// logged as an UPDATE when syncing.
    pub fn update_question(
        &mut self,
        id: &str,
        title: &str,
        description: Option<&str>,
        now: String,
        ctx: &mut Option<SyncContext>,
    ) -> (r: Result<(), DbError>)
        requires
            old(self).wf(),
            ctx_room(*old(ctx), 1),
        ensures
            final(self).wf(),
            ctx_kept(*old(ctx), *final(ctx)),
            ticked(*old(ctx), *final(ctx), 1),
            final(self).links() == old(self).links(),
            r is Ok <==> has_alive_q(old(self).questions(), id@),
            r matches Err(e) ==> e matches DbError::NotFound(m) && m@ == "question "@ + id@
                && final(self).questions() == old(self).questions() && final(self).changes() == old(self).changes(),
            r is Ok ==> exists|i: int|
                q_alive_at(old(self).questions(), i, id@) && {
                    let o = old(self).questions()[i];
                    let v = QuestionView {
                        title: title@,
                        description: opt_str_view(description),
                        updated_at: now@,
                        ..o.value
                    };
                    &&& final(self).questions() == old(self).questions().update(
                        i,
                        Row { value: v, hlc: coalesce(stamp_of(*final(ctx)), o.hlc), deleted_at: None },
                    )
                    &&& final(self).changes() == logged(
                        old(self).changes(),
                        *final(ctx),
                        "question"@,
                        id@,
                        "UPDATE"@,
                        PayloadView::Question(v),
                    )
                },
    {
        let hlc = stamp(ctx);
        let i = match self.alive_question(id) {
            Some(i) => i,
            None => {
                return Err(DbError::NotFound(concat("question ", id)));
            },
        };
        let old_row = &self.questions[i];
        let q = Question {
            id: old_row.question.id.clone(),
            title: title.to_owned(),
            description: opt_owned(description),
            status: old_row.question.status.clone(),
            archived_at: clone_opt(&old_row.question.archived_at),
            created_at: old_row.question.created_at.clone(),
            updated_at: now,
        };
        let new_hlc = if hlc.is_some() { clone_opt(&hlc) } else { clone_opt(&old_row.hlc) };
        self.set_question_row(i, QuestionRow { question: q.clone(), hlc: new_hlc, deleted_at: None });
        log_change(&mut self.changes, ctx, "question", id, "UPDATE", ChangePayload::Question(q), &hlc);
        Ok(())
    }

    /// Moves an alive question between the active and archived states:
    /// shared body of archiving and unarchiving.
    fn set_status(
        &mut self,
        id: &str,
        now: String,
        archive: bool,
        ctx: &mut Option<SyncContext>,
    ) -> (r: Result<(), DbError>)
        requires
            old(self).wf(),
            ctx_room(*old(ctx), 1),
        ensures
            final(self).wf(),
            ctx_kept(*old(ctx), *final(ctx)),
            ticked(*old(ctx), *final(ctx), 1),
            final(self).links() == old(self).links(),
            r is Ok <==> exists|i: int|
                q_alive_at(old(self).questions(), i, id@) && old(self).questions()[i].value.status == (
                if archive { STATUS_ACTIVE@ } else { STATUS_ARCHIVED@ }),
            r matches Err(e) ==> final(self).questions() == old(self).questions() && final(self).changes()
                == old(self).changes() && if has_alive_q(old(self).questions(), id@) {
                e matches DbError::InvalidOperation(m) && m@ == "question "@ + id@ + (if archive {
                    " is not active"@
                } else {
                    " is not archived"@
                })
            } else {
                e matches DbError::NotFound(m) && m@ == "question "@ + id@
            },
            r is Ok ==> exists|i: int|
                q_alive_at(old(self).questions(), i, id@) && {
                    let o = old(self).questions()[i];
                    let v = QuestionView {
                        status: if archive { STATUS_ARCHIVED@ } else { STATUS_ACTIVE@ },
                        archived_at: if archive { Some(now@) } else { None },
                        updated_at: now@,
                        ..o.value
                    };
                    &&& final(self).questions() == old(self).questions().update(
                        i,
                        Row { value: v, hlc: coalesce(stamp_of(*final(ctx)), o.hlc), deleted_at: None },
                    )
                    &&& final(self).changes() == logged(
                        old(self).changes(),
                        *final(ctx),
                        "question"@,
                        id@,
                        "UPDATE"@,
                        PayloadView::Question(v),
                    )
                },
    {
        let hlc = stamp(ctx);
        let (from, to) = if archive { (STATUS_ACTIVE, STATUS_ARCHIVED) } else { (STATUS_ARCHIVED, STATUS_ACTIVE) };
        let i = match self.alive_question(id) {
            Some(i) => i,
            None => {
                return Err(DbError::NotFound(concat("question ", id)));
            },
        };
        if !str_eq(self.questions[i].question.status.as_str(), from) {
            proof {
                assert forall|k: int| q_alive_at(old(self).questions(), k, id@) implies k == i by {
                    if k != i {
                        assert(old(self).questions()[k].value.id != old(self).questions()[i as int].value.id);
                    }
                }
            }
            let mut m = concat("question ", id);
            m.append(if archive { " is not active" } else { " is not archived" });
            return Err(DbError::InvalidOperation(m));
        }
        let old_row = &self.questions[i];
        let q = Question {
            id: old_row.question.id.clone(),
            title: old_row.question.title.clone(),
            description: clone_opt(&old_row.question.description),
            status: to.to_owned(),
            archived_at: if archive { Some(now.clone()) } else { None },
            created_at: old_row.question.created_at.clone(),
            updated_at: now,
        };
        let new_hlc = if hlc.is_some() { clone_opt(&hlc) } else { clone_opt(&old_row.hlc) };
        self.set_question_row(i, QuestionRow { question: q.clone(), hlc: new_hlc, deleted_at: None });
        log_change(&mut self.changes, ctx, "question", id, "UPDATE", ChangePayload::Question(q), &hlc);
        Ok(())
    }

    /// Archives an active question (its links are kept); logged as an
    /// UPDATE when syncing.
    pub fn archive_question(&mut self, id: &str, now: String, ctx: &mut Option<SyncContext>) -> (r: Result<(), DbError>)
        requires
            old(self).wf(),
            ctx_room(*old(ctx), 1),
        ensures
            final(self).wf(),
            ctx_kept(*old(ctx), *final(ctx)),
            ticked(*old(ctx), *final(ctx), 1),
            final(self).links() == old(self).links(),
            r is Ok <==> exists|i: int|
                q_alive_at(old(self).questions(), i, id@) && old(self).questions()[i].value.status == STATUS_ACTIVE@,
            r matches Err(e) ==> final(self).questions() == old(self).questions() && final(self).changes()
                == old(self).changes() && if has_alive_q(old(self).questions(), id@) {
                e matches DbError::InvalidOperation(m) && m@ == "question "@ + id@ + " is not active"@
            } else {
                e matches DbError::NotFound(m) && m@ == "question "@ + id@
            },
            r is Ok ==> exists|i: int|
                q_alive_at(old(self).questions(), i, id@) && {
                    let o = old(self).questions()[i];
                    let v = QuestionView {
                        status: STATUS_ARCHIVED@,
                        archived_at: Some(now@),
                        updated_at: now@,
                        ..o.value
                    };
                    &&& final(self).questions() == old(self).questions().update(
                        i,
                        Row { value: v, hlc: coalesce(stamp_of(*final(ctx)), o.hlc), deleted_at: None },
                    )
                    &&& final(self).changes() == logged(
                        old(self).changes(),
                        *final(ctx),
                        "question"@,
                        id@,
                        "UPDATE"@,
                        PayloadView::Question(v),
                    )
                },
    {
        self.set_status(id, now, true, ctx)
    }

    /// Brings an archived question back to active; logged as an UPDATE when
    /// syncing.
    pub fn unarchive_question(&mut self, id: &str, now: String, ctx: &mut Option<SyncContext>) -> (r: Result<(), DbError>)
        requires
            old(self).wf(),
            ctx_room(*old(ctx), 1),
        ensures
            final(self).wf(),
            ctx_kept(*old(ctx), *final(ctx)),
            ticked(*old(ctx), *final(ctx), 1),
            final(self).links() == old(self).links(),
            r is Ok <==> exists|i: int|
                q_alive_at(old(self).questions(), i, id@) && old(self).questions()[i].value.status == STATUS_ARCHIVED@,
            r matches Err(e) ==> final(self).questions() == old(self).questions() && final(self).changes()
                == old(self).changes() && if has_alive_q(old(self).questions(), id@) {
                e matches DbError::InvalidOperation(m) && m@ == "question "@ + id@ + " is not archived"@
            } else {
                e matches DbError::NotFound(m) && m@ == "question "@ + id@
            },
            r is Ok ==> exists|i: int|
                q_alive_at(old(self).questions(), i, id@) && {
                    let o = old(self).questions()[i];
                    let v = QuestionView {
                        status: STATUS_ACTIVE@,
                        archived_at: None,
                        updated_at: now@,
                        ..o.value
                    };
                    &&& final(self).questions() == old(self).questions().update(
                        i,
                        Row { value: v, hlc: coalesce(stamp_of(*final(ctx)), o.hlc), deleted_at: None },
                    )
                    &&& final(self).changes() == logged(
                        old(self).changes(),
                        *final(ctx),
                        "question"@,
                        id@,
                        "UPDATE"@,
                        PayloadView::Question(v),
                    )
                },
    {
        self.set_status(id, now, false, ctx)
    }

    /// Position of the link row with this id.
    fn link_pos(&self, id: &str) -> (r: Option<usize>)
        requires
            self.wf(),
        ensures
            r matches Some(i) ==> i < self.links().len() && self.links()[i as int].value.id == id@,
            r is None ==> !has_l_id(self.links(), id@),
    {
        let mut i: usize = 0;
        while i < self.links.len()
            invariant
                0 <= i <= self.links.len(),
                forall|k: int| 0 <= k < i ==> self.links()[k].value.id != id@,
            decreases self.links.len() - i,
        {
            if str_eq(self.links[i].link.id.as_str(), id) {
                return Some(i);
            }
            i = i + 1;
        }
        None
    }

    /// Position of the alive link with this id.
    fn alive_link(&self, id: &str) -> (r: Option<usize>)
        requires
            self.wf(),
        ensures
            r matches Some(i) ==> l_alive_at(self.links(), i as int, id@),
            r is None ==> !has_alive_l(self.links(), id@),
    {
        match self.link_pos(id) {
            Some(i) => {
                if self.links[i].deleted_at.is_none() {
                    Some(i)
                } else {
                    None
                }
            },
            None => None,
        }
    }

    /// Position of the alive link from `qid` to the given target.
    fn find_alive_link(&self, qid: &str, tt: &str, tid: &str) -> (r: Option<usize>)
        requires
            self.wf(),
        ensures
            r matches Some(i) ==> l_pair_at(self.links(), i as int, qid@, tt@, tid@),
            r is None ==> forall|i: int| !l_pair_at(self.links(), i, qid@, tt@, tid@),
    {
        let mut i: usize = 0;
        while i < self.links.len()
            invariant
                0 <= i <= self.links.len(),
                forall|k: int| 0 <= k < i ==> !l_pair_at(self.links(), k, qid@, tt@, tid@),
            decreases self.links.len() - i,
        {
            let l = &self.links[i];
            if l.deleted_at.is_none() && str_eq(l.link.question_id.as_str(), qid) && str_eq(
                l.link.target_type.as_str(),
                tt,
            ) && str_eq(l.link.target_id.as_str(), tid) {
                return Some(i);
            }
            i = i + 1;
        }
        None
    }

    /// The alive link with this id.
    pub fn get_link(&self, id: &str) -> (r: Result<QuestionLink, DbError>)
        requires
            self.wf(),
        ensures
            r is Ok <==> has_alive_l(self.links(), id@),
            r matches Ok(l) ==> exists|i: int| l_alive_at(self.links(), i, id@) && l@ == self.links()[i].value,
            r matches Err(e) ==> e matches DbError::NotFound(m) && m@ == "question_link "@ + id@,
    {
        match self.alive_link(id) {
            Some(i) => Ok(self.links[i].link.clone()),
            None => Err(DbError::NotFound(concat("question_link ", id))),
        }
    }

    /// Replaces the link row at `i`, keeping its id and target, and keeping
    /// it dead if it was.
    fn set_link_row(&mut self, i: usize, row: LinkRow)
        requires
            old(self).wf(),
            i < old(self).links().len(),
            row.link.id@ == old(self).links()[i as int].value.id,
            row.link.question_id@ == old(self).links()[i as int].value.question_id,
            row.link.target_type@ == old(self).links()[i as int].value.target_type,
            row.link.target_id@ == old(self).links()[i as int].value.target_id,
            old(self).links()[i as int].deleted_at is Some ==> row.deleted_at is Some,
        ensures
            final(self).wf(),
            final(self).links() == old(self).links().update(i as int, row@),
            final(self).questions() == old(self).questions(),
            final(self).changes() == old(self).changes(),
    {
        let ghost ls = self.links();
        self.links.set(i, row);
        assert(self.links() =~= ls.update(i as int, row@));
    }

    /// Links a question to a resource, highlight or comment. An alive link
    /// for the same target is returned as it is; otherwise a new link with
    /// the given id is added, logged as an INSERT when syncing.
    pub fn link(
        &mut self,
        link_id: String,
        now: String,
        question_id: &str,
        target_type: &str,
        target_id: &str,
        reason: Option<&str>,
        ctx: &mut Option<SyncContext>,
    ) -> (r: Result<QuestionLink, DbError>)
        requires
            old(self).wf(),
            ctx_room(*old(ctx), 1),
        ensures
            final(self).wf(),
            ctx_kept(*old(ctx), *final(ctx)),
            final(self).questions() == old(self).questions(),
            !is_target_type(target_type@) ==> (r matches Err(e) && e matches DbError::InvalidOperation(m)
                && m@ == "invalid target_type: "@ + target_type@),
            is_target_type(target_type@) && !has_alive_q(old(self).questions(), question_id@) ==> (r matches Err(e)
                && e matches DbError::NotFound(m) && m@ == "question "@ + question_id@),
            // An alive link for the same target comes back unchanged.
            forall|i: int| #![trigger l_pair_at(old(self).links(), i, question_id@, target_type@, target_id@)]
                is_target_type(target_type@) && has_alive_q(old(self).questions(), question_id@)
                && l_pair_at(old(self).links(), i, question_id@, target_type@, target_id@) ==> (r matches Ok(l)
                && l@ == old(self).links()[i].value),
            // Nothing is written unless a new link is added.
            !(r is Ok && final(self).links() != old(self).links()) ==> untouched(*old(ctx), *final(ctx))
                || (r is Err && has_l_id(old(self).links(), link_id@)),
            r is Err ==> final(self).links() == old(self).links() && final(self).changes() == old(self).changes(),
            is_target_type(target_type@) && has_alive_q(old(self).questions(), question_id@) && (forall|i: int|
                !l_pair_at(old(self).links(), i, question_id@, target_type@, target_id@)) ==> {
                &&& ticked(*old(ctx), *final(ctx), 1)
                &&& has_l_id(old(self).links(), link_id@) ==> (r matches Err(e) && e matches DbError::Sqlite(m)
                    && m@ == "UNIQUE constraint failed: question_links.id"@)
                &&& !has_l_id(old(self).links(), link_id@) ==> (r matches Ok(l) && l@ == (LinkView {
                    id: link_id@,
                    question_id: question_id@,
                    target_type: target_type@,
                    target_id: target_id@,
                    reason: opt_str_view(reason),
                    created_at: now@,
                    updated_at: now@,
                }) && final(self).links() == old(self).links().push(
                    Row { value: l@, hlc: stamp_of(*final(ctx)), deleted_at: None },
                ) && final(self).changes() == logged(
                    old(self).changes(),
                    *final(ctx),
                    "question_link"@,
                    link_id@,
                    "INSERT"@,
                    PayloadView::Link(l@),
                ))
            },
    {
        match validate_target_type(target_type) {
            Err(e) => {
                return Err(e);
            },
            Ok(()) => {},
        }
        if self.alive_question(question_id).is_none() {
            return Err(DbError::NotFound(concat("question ", question_id)));
        }
        match self.find_alive_link(question_id, target_type, target_id) {
            Some(i) => {
                proof {
                    assert forall|k: int| #![trigger l_pair_at(old(self).links(), k, question_id@, target_type@, target_id@)]
                        l_pair_at(old(self).links(), k, question_id@, target_type@, target_id@) implies k == i by {
                        if k < i {
                            assert(!(old(self).links()[k].value.question_id == old(self).links()[i as int].value.question_id
                                && old(self).links()[k].value.target_type == old(self).links()[i as int].value.target_type
                                && old(self).links()[k].value.target_id == old(self).links()[i as int].value.target_id));
                        } else if k > i {
                            assert(!(old(self).links()[i as int].value.question_id == old(self).links()[k].value.question_id
                                && old(self).links()[i as int].value.target_type == old(self).links()[k].value.target_type
                                && old(self).links()[i as int].value.target_id == old(self).links()[k].value.target_id));
                        }
                    }
                }
                return Ok(self.links[i].link.clone());
            },
            None => {},
        }
        let hlc = stamp(ctx);
        if self.link_pos(link_id.as_str()).is_some() {
            return Err(DbError::Sqlite("UNIQUE constraint failed: question_links.id".to_owned()));
        }
        let l = QuestionLink {
            id: link_id,
            question_id: question_id.to_owned(),
            target_type: target_type.to_owned(),
            target_id: target_id.to_owned(),
            reason: opt_owned(reason),
            created_at: now.clone(),
            updated_at: now,
        };
        let ghost ls = self.links();
        self.links.push(LinkRow { link: l.clone(), hlc: clone_opt(&hlc), deleted_at: None });
        assert(self.links() =~= ls.push(self.links@.last()@));
        proof {
            let nl = self.links();
            assert forall|i: int, j: int| 0 <= i < j < nl.len() implies nl[i].value.id != nl[j].value.id by {
                if j == nl.len() - 1 {
                    if nl[i].value.id == link_id@ {
                        assert(0 <= i < ls.len() && ls[i].value.id == link_id@);
                    }
                }
            }
            assert forall|i: int, j: int|
                0 <= i < j < nl.len() && nl[i].deleted_at is None && nl[j].deleted_at is None implies !(
                nl[i].value.question_id == nl[j].value.question_id && nl[i].value.target_type
                    == nl[j].value.target_type && nl[i].value.target_id == nl[j].value.target_id) by {
                if j == nl.len() - 1 {
                    assert(!l_pair_at(ls, i, question_id@, target_type@, target_id@));
                }
            }
        }
        log_change(&mut self.changes, ctx, "question_link", l.id.as_str(), "INSERT", ChangePayload::Link(l.clone()), &hlc);
        Ok(l)
    }

    /// Sets the reason of an alive link; logged as an UPDATE when syncing.
    pub fn update_link_reason(
        &mut self,
        link_id: &str,
        reason: Option<&str>,
        now: String,
        ctx: &mut Option<SyncContext>,
    ) -> (r: Result<(), DbError>)
        requires
            old(self).wf(),
            ctx_room(*old(ctx), 1),
        ensures
            final(self).wf(),
            ctx_kept(*old(ctx), *final(ctx)),
            ticked(*old(ctx), *final(ctx), 1),
            final(self).questions() == old(self).questions(),
            r is Ok <==> has_alive_l(old(self).links(), link_id@),
            r matches Err(e) ==> e matches DbError::NotFound(m) && m@ == "question_link "@ + link_id@
                && final(self).links() == old(self).links() && final(self).changes() == old(self).changes(),
            r is Ok ==> exists|i: int|
                l_alive_at(old(self).links(), i, link_id@) && {
                    let o = old(self).links()[i];
                    let v = LinkView { reason: opt_str_view(reason), updated_at: now@, ..o.value };
                    &&& final(self).links() == old(self).links().update(
                        i,
                        Row { value: v, hlc: coalesce(stamp_of(*final(ctx)), o.hlc), deleted_at: None },
                    )
                    &&& final(self).changes() == logged(
                        old(self).changes(),
                        *final(ctx),
                        "question_link"@,
                        link_id@,
                        "UPDATE"@,
                        PayloadView::Link(v),
                    )
                },
    {
        let hlc = stamp(ctx);
        let i = match self.alive_link(link_id) {
            Some(i) => i,
            None => {
                return Err(DbError::NotFound(concat("question_link ", link_id)));
            },
        };
        let o = &self.links[i];
        let l = QuestionLink {
            id: o.link.id.clone(),
            question_id: o.link.question_id.clone(),
            target_type: o.link.target_type.clone(),
            target_id: o.link.target_id.clone(),
            reason: opt_owned(reason),
            created_at: o.link.created_at.clone(),
            updated_at: now,
        };
        let new_hlc = if hlc.is_some() { clone_opt(&hlc) } else { clone_opt(&o.hlc) };
        self.set_link_row(i, LinkRow { link: l.clone(), hlc: new_hlc, deleted_at: None });
        log_change(&mut self.changes, ctx, "question_link", link_id, "UPDATE", ChangePayload::Link(l), &hlc);
        Ok(())
    }

    /// Soft-deletes an alive link at `now`; logged as a DELETE carrying the
    /// link as it was, when syncing.
    pub fn unlink(&mut self, link_id: &str, now: String, ctx: &mut Option<SyncContext>) -> (r: Result<(), DbError>)
        requires
            old(self).wf(),
            ctx_room(*old(ctx), 1),
        ensures
            final(self).wf(),
            ctx_kept(*old(ctx), *final(ctx)),
            ticked(*old(ctx), *final(ctx), 1),
            final(self).questions() == old(self).questions(),
            r is Ok <==> has_alive_l(old(self).links(), link_id@),
            r matches Err(e) ==> e matches DbError::NotFound(m) && m@ == "question_link "@ + link_id@
                && final(self).links() == old(self).links() && final(self).changes() == old(self).changes(),
            r is Ok ==> exists|i: int|
                l_alive_at(old(self).links(), i, link_id@) && {
                    let o = old(self).links()[i];
                    &&& final(self).links() == old(self).links().update(
                        i,
                        Row { value: o.value, hlc: coalesce(stamp_of(*final(ctx)), o.hlc), deleted_at: Some(now@) },
                    )
                    &&& final(self).changes() == logged(
                        old(self).changes(),
                        *final(ctx),
                        "question_link"@,
                        link_id@,
                        "DELETE"@,
                        PayloadView::Link(o.value),
                    )
                },
    {
        let hlc = stamp(ctx);
        let i = match self.alive_link(link_id) {
            Some(i) => i,
            None => {
                return Err(DbError::NotFound(concat("question_link ", link_id)));
            },
        };
        let before = self.links[i].link.clone();
        let new_hlc = if hlc.is_some() { clone_opt(&hlc) } else { clone_opt(&self.links[i].hlc) };
        self.set_link_row(i, LinkRow { link: before.clone(), hlc: new_hlc, deleted_at: Some(now) });
        log_change(&mut self.changes, ctx, "question_link", link_id, "DELETE", ChangePayload::Link(before), &hlc);
        Ok(())
    }

    /// Soft-deletes the doomed links one by one, each stamped and logged
    /// when syncing; the number of links.
    fn kill_links(
        &mut self,
        by_question: bool,
        a: &str,
        b: &str,
        now: &String,
        ctx: &mut Option<SyncContext>,
    ) -> (n: usize)
        requires
            old(self).wf(),
            ctx_room(*old(ctx), old(self).links().len() as int),
        ensures
            final(self).wf(),
            ctx_kept(*old(ctx), *final(ctx)),
            n == count_doomed(old(self).links(), by_question, a@, b@),
            n == 0 ==> untouched(*old(ctx), *final(ctx)),
            n > 0 ==> ticked(*old(ctx), *final(ctx), n as int),
            final(self).questions() == old(self).questions(),
            killed_rows(old(self).links(), final(self).links(), by_question, a@, b@, now@, (*old(ctx)) is Some),
            final(self).changes() == old(self).changes() + cascade_log(
                old(self).links(),
                final(self).links(),
                by_question,
                a@,
                b@,
                *old(ctx),
            ),
    {
        let ghost c0 = *ctx;
        let ghost ls0 = self.links();
        let ghost ch0 = self.changes();
        let ghost syncing = c0 is Some;
        let mut n: usize = 0;
        let mut i: usize = 0;
        proof {
            assert(ls0.take(0) =~= Seq::<Row<LinkView>>::empty());
            assert(ch0 + cascade_log(ls0.take(0), self.links().take(0), by_question, a@, b@, c0) =~= ch0);
        }
        while i < self.links.len()
            invariant
                0 <= i <= self.links.len(),
                self.wf(),
                self.links().len() == ls0.len(),
                self.questions() == old(self).questions(),
                ctx_kept(c0, *ctx),
                syncing == c0 is Some,
                n == count_doomed(ls0.take(i as int), by_question, a@, b@),
                n <= i,
                n == 0 ==> untouched(c0, *ctx),
                n > 0 ==> ticked(c0, *ctx, n as int),
                ctx_room(c0, ls0.len() as int),
                forall|k: int| i <= k < ls0.len() ==> self.links()[k] == ls0[k],
                killed_rows(ls0.take(i as int), self.links().take(i as int), by_question, a@, b@, now@, syncing),
                self.changes() == ch0 + cascade_log(
                    ls0.take(i as int),
                    self.links().take(i as int),
                    by_question,
                    a@,
                    b@,
                    c0,
                ),
            decreases self.links.len() - i,
        {
            let ghost cur = self.links();
            let ghost ctx_before = *ctx;
            let l = &self.links[i];
            let hit = l.deleted_at.is_none() && if by_question {
                str_eq(l.link.question_id.as_str(), a)
            } else {
                str_eq(l.link.target_type.as_str(), a) && str_eq(l.link.target_id.as_str(), b)
            };
            assert(ls0.take(i + 1).drop_last() =~= ls0.take(i as int));
            if hit {
                assert(doomed(ls0[i as int], by_question, a@, b@));
                let hlc = stamp(ctx);
                let before = self.links[i].link.clone();
                let new_hlc = if hlc.is_some() { clone_opt(&hlc) } else { clone_opt(&self.links[i].hlc) };
                self.set_link_row(i, LinkRow { link: before.clone(), hlc: new_hlc, deleted_at: Some(now.clone()) });
                let ghost ch1 = self.changes();
                let lid = before.id.clone();
                log_change(&mut self.changes, ctx, "question_link", lid.as_str(), "DELETE", ChangePayload::Link(before), &hlc);
                n = n + 1;
                proof {
                    let nl = self.links();
                    assert(nl.take(i + 1).drop_last() =~= nl.take(i as int));
                    assert(nl.take(i as int) =~= cur.take(i as int));
                    assert forall|k: int| i + 1 <= k < ls0.len() implies nl[k] == ls0[k] by {}
                    assert(killed_rows(ls0.take(i + 1), nl.take(i + 1), by_question, a@, b@, now@, syncing)) by {
                        assert forall|k: int| 0 <= k < ls0.take(i + 1).len() implies if doomed(
                            #[trigger] ls0.take(i + 1)[k],
                            by_question,
                            a@,
                            b@,
                        ) {
                            &&& nl.take(i + 1)[k].value == ls0.take(i + 1)[k].value
                            &&& nl.take(i + 1)[k].deleted_at == Some(now@)
                            &&& if syncing {
                                nl.take(i + 1)[k].hlc is Some
                            } else {
                                nl.take(i + 1)[k].hlc == ls0.take(i + 1)[k].hlc
                            }
                        } else {
                            nl.take(i + 1)[k] == ls0.take(i + 1)[k]
                        } by {
                            if k < i {
                                assert(ls0.take(i + 1)[k] == ls0.take(i as int)[k]);
                                assert(nl.take(i + 1)[k] == cur.take(i as int)[k]);
                            }
                        }
                    }
                    match c0 {
                        Some(c) => {
                            assert(cascade_log(ls0.take(i + 1), nl.take(i + 1), by_question, a@, b@, c0)
                                == kill_log(ls0.take(i + 1), nl.take(i + 1), by_question, a@, b@, c.device_id@));
                            lemma_kill_log_prefix(ls0.take(i as int), nl.take(i as int), cur.take(i as int), by_question, a@, b@, c.device_id@);
                            assert(nl.take(i + 1).take(i as int) =~= nl.take(i as int));
                            assert(self.changes() =~= ch0 + cascade_log(ls0.take(i + 1), nl.take(i + 1), by_question, a@, b@, c0));
                        },
                        None => {
                            assert(self.changes() =~= ch0 + cascade_log(ls0.take(i + 1), nl.take(i + 1), by_question, a@, b@, c0));
                        },
                    }
                }
            } else {
                proof {
                    let nl = self.links();
                    assert(!doomed(ls0[i as int], by_question, a@, b@));
                    assert(nl.take(i + 1).drop_last() =~= nl.take(i as int));
                    assert(killed_rows(ls0.take(i + 1), nl.take(i + 1), by_question, a@, b@, now@, syncing)) by {
                        assert forall|k: int| 0 <= k < ls0.take(i + 1).len() implies if doomed(
                            #[trigger] ls0.take(i + 1)[k],
                            by_question,
                            a@,
                            b@,
                        ) {
                            &&& nl.take(i + 1)[k].value == ls0.take(i + 1)[k].value
                            &&& nl.take(i + 1)[k].deleted_at == Some(now@)
                            &&& if syncing {
                                nl.take(i + 1)[k].hlc is Some
                            } else {
                                nl.take(i + 1)[k].hlc == ls0.take(i + 1)[k].hlc
                            }
                        } else {
                            nl.take(i + 1)[k] == ls0.take(i + 1)[k]
                        } by {
                            if k < i {
                                assert(ls0.take(i + 1)[k] == ls0.take(i as int)[k]);
                                assert(nl.take(i + 1)[k] == nl.take(i as int)[k]);
                            }
                        }
                    }
                    match c0 {
                        Some(c) => {
                            lemma_kill_log_prefix(ls0.take(i as int), nl.take(i + 1).take(i as int), nl.take(i as int), by_question, a@, b@, c.device_id@);
                        },
                        None => {},
                    }
                    assert(self.changes() =~= ch0 + cascade_log(ls0.take(i + 1), nl.take(i + 1), by_question, a@, b@, c0));
                }
            }
            i = i + 1;
        }
        proof {
            assert(ls0.take(i as int) =~= ls0);
            assert(self.links().take(i as int) =~= self.links());
        }
        n
    }

    /// Soft-deletes an alive question at `now` together with all its alive
    /// links. When syncing, each link is stamped and logged as a DELETE in
    /// table order, then the question's DELETE is logged.
    pub fn delete_question(&mut self, id: &str, now: String, ctx: &mut Option<SyncContext>) -> (r: Result<(), DbError>)
        requires
            old(self).wf(),
            ctx_room(*old(ctx), old(self).links().len() + 1int),
        ensures
            final(self).wf(),
            ctx_kept(*old(ctx), *final(ctx)),
            ticked(*old(ctx), *final(ctx), old(self).links().len() + 1int),
            r is Ok <==> has_alive_q(old(self).questions(), id@),
            r matches Err(e) ==> e matches DbError::NotFound(m) && m@ == "question "@ + id@
                && final(self).questions() == old(self).questions() && final(self).links() == old(self).links()
                && final(self).changes() == old(self).changes(),
            r is Ok ==> exists|i: int|
                q_alive_at(old(self).questions(), i, id@) && {
                    let o = old(self).questions()[i];
                    let h = final(self).questions()[i].hlc;
                    &&& final(self).questions() == old(self).questions().update(
                        i,
                        Row { value: o.value, hlc: h, deleted_at: Some(now@) },
                    )
                    &&& if (*old(ctx)) is Some { h is Some } else { h == o.hlc }
                    &&& killed_rows(old(self).links(), final(self).links(), true, id@, Seq::<char>::empty(), now@, (*old(ctx)) is Some)
                    &&& final(self).changes() == old(self).changes() + cascade_log(
                        old(self).links(),
                        final(self).links(),
                        true,
                        id@,
                        Seq::<char>::empty(),
                        *old(ctx),
                    ) + match *old(ctx) {
                        Some(c) => seq![
                            ChangeView {
                                entity_type: "question"@,
                                entity_id: id@,
                                operation: "DELETE"@,
                                payload: PayloadView::Question(o.value),
                                hlc: h->0,
                                device_id: c.device_id@,
                            },
                        ],
                        None => Seq::<ChangeView>::empty(),
                    }
                },
    {
        let ghost c0 = *ctx;
        let hlc = stamp(ctx);
        let i = match self.alive_question(id) {
            Some(i) => i,
            None => {
                return Err(DbError::NotFound(concat("question ", id)));
            },
        };
        let before = self.questions[i].question.clone();
        let new_hlc = if hlc.is_some() { clone_opt(&hlc) } else { clone_opt(&self.questions[i].hlc) };
        self.set_question_row(i, QuestionRow { question: before.clone(), hlc: new_hlc, deleted_at: Some(now.clone()) });
        let ghost qs1 = self.questions();
        let ghost ch1 = self.changes();
        let ghost c1 = *ctx;
        let ghost ls1 = self.links();
        let empty = "";
        assert(empty@ =~= Seq::<char>::empty()) by {
            reveal_strlit("");
        }
        let n = self.kill_links(true, id, empty, &now, ctx);
        let ghost ch2 = self.changes();
        match (&*ctx, &hlc) {
            (Some(c), Some(h)) => {
                self.changes.push(
                    Change {
                        entity_type: "question".to_owned(),
                        entity_id: id.to_owned(),
                        operation: "DELETE".to_owned(),
                        payload: ChangePayload::Question(before),
                        hlc: h.clone(),
                        device_id: c.device_id.to_owned(),
                    },
                );
                assert(self.changes() =~= ch2.push(self.changes@.last()@));
            },
            _ => {},
        }
        proof {
            lemma_count_doomed_bound(ls1, true, id@, Seq::<char>::empty());
            assert(ch1 == old(self).changes());
        }
        Ok(())
    }

    /// Alive questions, optionally of one status. With a status: the most
    /// recently updated (archived, for archived questions) first; without:
    /// active before archived, each group in that order.
    pub fn list_questions(&self, status: Option<&str>) -> (out: Vec<Question>)
        requires
            self.wf(),
        ensures
            out@.map_values(|q: Question| q@) == stable_sort(
                alive_questions(self.questions(), opt_str_view(status)),
                |a: QuestionView, b: QuestionView| list_before(a, b, status is None),
            ),
            status matches Some(s) ==> forall|k: int| 0 <= k < out.len() ==> (#[trigger] out@[k]).status@ == s@,
            status matches Some(s) && s@ != STATUS_ARCHIVED@ ==> forall|i: int, j: int| #![trigger out@[i], out@[j]]
                0 <= i < j < out.len() ==> !seq_lt(out@[i].updated_at@, out@[j].updated_at@),
            status is None ==> forall|i: int, j: int| #![trigger out@[i], out@[j]]
                0 <= i < j < out.len() ==> !seq_lt(out@[j].status@, out@[i].status@),
            status is None ==> forall|i: int, j: int| #![trigger out@[i], out@[j]]
                0 <= i < j < out.len() && out@[i].status@ == out@[j].status@ && out@[i].status@ != STATUS_ARCHIVED@
                    ==> !seq_lt(out@[i].updated_at@, out@[j].updated_at@),
    {
        let by_status = status.is_none();
        let ghost f = |a: QuestionView, b: QuestionView| list_before(a, b, by_status);
        let ghost st = opt_str_view(status);
        let ghost qs = self.questions();
        let mut out: Vec<Question> = Vec::new();
        let mut i: usize = 0;
        proof {
            assert(qs.take(0) =~= Seq::<Row<QuestionView>>::empty());
            assert(out@.map_values(|q: Question| q@) =~= Seq::<QuestionView>::empty());
        }
        while i < self.questions.len()
            invariant
                0 <= i <= self.questions.len(),
                qs == self.questions(),
                by_status == status is None,
                st == opt_str_view(status),
                f == (|a: QuestionView, b: QuestionView| list_before(a, b, by_status)),
                out@.map_values(|q: Question| q@) == stable_sort(alive_questions(qs.take(i as int), st), f),
            decreases self.questions.len() - i,
        {
            let row = &self.questions[i];
            assert(qs.take(i + 1).drop_last() =~= qs.take(i as int));
            let keep = row.deleted_at.is_none() && match status {
                Some(s) => str_eq(row.question.status.as_str(), s),
                None => true,
            };
            if keep {
                let ghost a = alive_questions(qs.take(i as int), st);
                assert(a.push(row.question@).drop_last() =~= a);
                insert_question(&mut out, row.question.clone(), by_status);
            }
            i = i + 1;
        }
        assert(qs.take(i as int) =~= qs);
        proof {
            let v = out@.map_values(|q: Question| q@);
            assert forall|k: int| 0 <= k < out.len() implies v[k] == (#[trigger] out@[k])@ by {}
            match status {
                Some(s) => lemma_questions_of_status_order(qs, s@, v),
                None => lemma_all_questions_order(qs, v),
            }
        }
        out
    }

    /// The question's alive links, oldest first.
    pub fn list_links_for_question(&self, question_id: &str) -> (out: Vec<QuestionLink>)
        requires
            self.wf(),
        ensures
            out@.map_values(|l: QuestionLink| l@) == stable_sort(
                alive_links_of(self.links(), question_id@),
                |a: LinkView, b: LinkView| created_first(a, b),
            ),
            forall|i: int, j: int| #![trigger out@[i], out@[j]]
                0 <= i < j < out.len() ==> !seq_lt(out@[j].created_at@, out@[i].created_at@),
    {
        let ghost f = |a: LinkView, b: LinkView| created_first(a, b);
        let ghost ls = self.links();
        let mut out: Vec<QuestionLink> = Vec::new();
        let mut i: usize = 0;
        proof {
            assert(ls.take(0) =~= Seq::<Row<LinkView>>::empty());
            assert(out@.map_values(|l: QuestionLink| l@) =~= Seq::<LinkView>::empty());
        }
        while i < self.links.len()
            invariant
                0 <= i <= self.links.len(),
                ls == self.links(),
                f == (|a: LinkView, b: LinkView| created_first(a, b)),
                out@.map_values(|l: QuestionLink| l@) == stable_sort(alive_links_of(ls.take(i as int), question_id@), f),
            decreases self.links.len() - i,
        {
            let row = &self.links[i];
            assert(ls.take(i + 1).drop_last() =~= ls.take(i as int));
            if row.deleted_at.is_none() && str_eq(row.link.question_id.as_str(), question_id) {
                let ghost a = alive_links_of(ls.take(i as int), question_id@);
                assert(a.push(row.link@).drop_last() =~= a);
                insert_link(&mut out, row.link.clone());
            }
            i = i + 1;
        }
        assert(ls.take(i as int) =~= ls);
        proof {
            let v = out@.map_values(|l: QuestionLink| l@);
            lemma_links_oldest_first(ls, question_id@, v);
            assert forall|i: int, j: int| #![trigger out@[i], out@[j]]
                0 <= i < j < out.len() implies !seq_lt(out@[j].created_at@, out@[i].created_at@) by {
                assert(v[i] == out@[i]@ && v[j] == out@[j]@);
            }
        }
        out
    }

    /// Alive questions linked to the target, most recently updated first.
    fn target_list(&self, target_type: &str, target_id: &str) -> (out: Vec<Question>)
        requires
            self.wf(),
        ensures
            out@.map_values(|q: Question| q@) == stable_sort(
                target_questions(self.questions(), self.links(), target_type@, target_id@),
                |a: QuestionView, b: QuestionView| newer_update(a, b),
            ),
    {
        let ghost f = |a: QuestionView, b: QuestionView| newer_update(a, b);
        let ghost ls = self.links();
        let ghost qs = self.questions();
        let mut out: Vec<Question> = Vec::new();
        let mut i: usize = 0;
        proof {
            assert(ls.take(0) =~= Seq::<Row<LinkView>>::empty());
            assert(out@.map_values(|q: Question| q@) =~= Seq::<QuestionView>::empty());
        }
        while i < self.links.len()
            invariant
                0 <= i <= self.links.len(),
                self.wf(),
                ls == self.links(),
                qs == self.questions(),
                f == (|a: QuestionView, b: QuestionView| newer_update(a, b)),
                out@.map_values(|q: Question| q@) == stable_sort(
                    target_questions(qs, ls.take(i as int), target_type@, target_id@),
                    f,
                ),
            decreases self.links.len() - i,
        {
            let row = &self.links[i];
            assert(ls.take(i + 1).drop_last() =~= ls.take(i as int));
            if row.deleted_at.is_none() && str_eq(row.link.target_type.as_str(), target_type) && str_eq(
                row.link.target_id.as_str(),
                target_id,
            ) {
                match self.question_pos(row.link.question_id.as_str()) {
                    Some(j) => {
                        proof {
                            lemma_alive_q_of(qs, row.link.question_id@, j as int);
                        }
                        if self.questions[j].deleted_at.is_none() {
                            let ghost a = target_questions(qs, ls.take(i as int), target_type@, target_id@);
                            assert(a.push(self.questions[j as int].question@).drop_last() =~= a);
                            insert_by_update(&mut out, self.questions[j].question.clone());
                        }
                    },
                    None => {
                        proof {
                            lemma_alive_q_of_none(qs, row.link.question_id@);
                        }
                    },
                }
            }
            i = i + 1;
        }
        assert(ls.take(i as int) =~= ls);
        out
    }

    /// Alive questions linked to the target (whatever their status), most
    /// recently updated first.
    pub fn list_questions_for_target(&self, target_type: &str, target_id: &str) -> (r: Result<
        Vec<Question>,
        DbError,
    >)
        requires
            self.wf(),
        ensures
            r is Ok <==> is_target_type(target_type@),
            r matches Err(e) ==> e matches DbError::InvalidOperation(m) && m@ == "invalid target_type: "@
                + target_type@,
            r matches Ok(out) ==> out@.map_values(|q: Question| q@) == stable_sort(
                target_questions(self.questions(), self.links(), target_type@, target_id@),
                |a: QuestionView, b: QuestionView| newer_update(a, b),
            ),
            r matches Ok(out) ==> forall|i: int, j: int| #![trigger out@[i], out@[j]]
                0 <= i < j < out.len() ==> !seq_lt(out@[i].updated_at@, out@[j].updated_at@),
    {
        match validate_target_type(target_type) {
            Err(e) => Err(e),
            Ok(()) => {
                let out = self.target_list(target_type, target_id);
                proof {
                    let v = out@.map_values(|q: Question| q@);
                    lemma_newest_update_first(
                        target_questions(self.questions(), self.links(), target_type@, target_id@),
                        v,
                    );
                    assert forall|i: int, j: int| #![trigger out@[i], out@[j]]
                        0 <= i < j < out.len() implies !seq_lt(out@[i].updated_at@, out@[j].updated_at@) by {
                        assert(v[i] == out@[i]@ && v[j] == out@[j]@);
                    }
                }
                Ok(out)
            },
        }
    }

    /// For each given resource that alive questions link to, those
    /// questions, most recently updated first; resources without any are
    /// left out.
    pub fn list_questions_for_resources(&self, resource_ids: &[String]) -> (out: Vec<(String, Vec<Question>)>)
        requires
            self.wf(),
        ensures
            out@.map_values(|p: (String, Vec<Question>)| (p.0@, p.1@.map_values(|q: Question| q@)))
                == resource_groups(
                self.questions(),
                self.links(),
                resource_ids@.map_values(|s: String| s@),
            ),
            forall|g: int, i: int, j: int| #![trigger out@[g].1@[i], out@[g].1@[j]]
                0 <= g < out.len() && 0 <= i < j < out@[g].1.len() ==> !seq_lt(
                    out@[g].1@[i].updated_at@,
                    out@[g].1@[j].updated_at@,
                ),
    {
        let ghost ids = resource_ids@.map_values(|s: String| s@);
        let ghost qs = self.questions();
        let ghost ls = self.links();
        let mut out: Vec<(String, Vec<Question>)> = Vec::new();
        let mut i: usize = 0;
        proof {
            assert(ids.take(0) =~= Seq::<Seq<char>>::empty());
            assert(out@.map_values(|p: (String, Vec<Question>)| (p.0@, p.1@.map_values(|q: Question| q@)))
                =~= Seq::<(Seq<char>, Seq<QuestionView>)>::empty());
        }
        while i < resource_ids.len()
            invariant
                0 <= i <= resource_ids.len(),
                self.wf(),
                ids == resource_ids@.map_values(|s: String| s@),
                qs == self.questions(),
                ls == self.links(),
                out@.map_values(|p: (String, Vec<Question>)| (p.0@, p.1@.map_values(|q: Question| q@)))
                    == resource_groups(qs, ls, ids.take(i as int)),
            decreases resource_ids.len() - i,
        {
            let r = &resource_ids[i];
            assert(ids.take(i + 1).drop_last() =~= ids.take(i as int));
            let mut seen = false;
            let mut k: usize = 0;
            while k < i
                invariant
                    0 <= k <= i < resource_ids.len(),
                    ids == resource_ids@.map_values(|s: String| s@),
                    seen == exists|m: int| 0 <= m < k && ids[m] == ids[i as int],
                    r@ == ids[i as int],
                decreases i - k,
            {
                assert(ids[k as int] == resource_ids[k as int]@ && ids[i as int] == r@);
                if str_eq(resource_ids[k].as_str(), r.as_str()) {
                    seen = true;
                }
                proof {
                    if !seen {
                        assert forall|m: int| 0 <= m < k + 1 implies ids[m] != ids[i as int] by {
                            if m < k {
                                assert(!(0 <= m < k && ids[m] == ids[i as int]));
                            }
                        }
                    }
                }
                k = k + 1;
            }
            proof {
                if ids.take(i as int).contains(ids[i as int]) {
                    let m = choose|m: int| 0 <= m < ids.take(i as int).len() && ids.take(i as int)[m] == ids[i as int];
                    assert(ids[m] == ids.take(i as int)[m]);
                }
                if seen {
                    let m = choose|m: int| 0 <= m < k && ids[m] == ids[i as int];
                    assert(ids.take(i as int)[m] == ids[m]);
                }
                assert(ids.take(i + 1).last() == ids[i as int]);
            }
            if !seen {
                let g = self.target_list(TARGET_RESOURCE, r.as_str());
                if g.len() > 0 {
                    let ghost before = out@;
                    let ghost gv = g@.map_values(|q: Question| q@);
                    out.push((r.clone(), g));
                    assert(out@.map_values(|p: (String, Vec<Question>)| (p.0@, p.1@.map_values(|q: Question| q@)))
                        =~= before.map_values(|p: (String, Vec<Question>)| (p.0@, p.1@.map_values(|q: Question| q@))).push(
                        (ids[i as int], gv),
                    ));
                }
            }
            i = i + 1;
        }
        assert(ids.take(i as int) =~= ids);
        proof {
            let v = out@.map_values(|p: (String, Vec<Question>)| (p.0@, p.1@.map_values(|q: Question| q@)));
            assert forall|g: int, i: int, j: int| #![trigger out@[g].1@[i], out@[g].1@[j]]
                0 <= g < out.len() && 0 <= i < j < out@[g].1.len() implies !seq_lt(
                    out@[g].1@[i].updated_at@,
                    out@[g].1@[j].updated_at@,
                ) by {
                lemma_resource_group_newest_first(qs, ls, ids, g);
                let w = v[g].1;
                assert(w == out@[g].1@.map_values(|q: Question| q@));
                assert(w[i] == out@[g].1@[i]@ && w[j] == out@[g].1@[j]@);
            }
        }
        out
    }

    /// Soft-deletes every alive link pointing at the given target, each
    /// stamped and logged as a DELETE when syncing; the number of links.
    pub fn cascade_soft_delete_for_target(
        &mut self,
        target_type: &str,
        target_id: &str,
        now: String,
        ctx: &mut Option<SyncContext>,
    ) -> (r: Result<usize, DbError>)
        requires
            old(self).wf(),
            ctx_room(*old(ctx), old(self).links().len() as int),
        ensures
            final(self).wf(),
            ctx_kept(*old(ctx), *final(ctx)),
            final(self).questions() == old(self).questions(),
            r is Ok <==> is_target_type(target_type@),
            r matches Err(e) ==> e matches DbError::InvalidOperation(m) && m@ == "invalid target_type: "@
                + target_type@ && final(self).links() == old(self).links() && final(self).changes()
                == old(self).changes() && untouched(*old(ctx), *final(ctx)),
            r matches Ok(n) ==> {
                &&& n == count_doomed(old(self).links(), false, target_type@, target_id@)
                &&& n == 0 ==> untouched(*old(ctx), *final(ctx))
                &&& n > 0 ==> ticked(*old(ctx), *final(ctx), n as int)
                &&& killed_rows(
                    old(self).links(),
                    final(self).links(),
                    false,
                    target_type@,
                    target_id@,
                    now@,
                    (*old(ctx)) is Some,
                )
                &&& final(self).changes() == old(self).changes() + cascade_log(
                    old(self).links(),
                    final(self).links(),
                    false,
                    target_type@,
                    target_id@,
                    *old(ctx),
                )
            },
    {
        match validate_target_type(target_type) {
            Err(e) => {
                return Err(e);
            },
            Ok(()) => {},
        }
        let n = self.kill_links(false, target_type, target_id, &now, ctx);
        Ok(n)
    }
}

} // verus!
