//! Durable side chats: mini-forks of a parent conversation.
//!
//! A side chat carries a hidden snapshot of the parent history (the model
//! sees it, the transcript does not show it) and its own visible transcript.
//! Closing archives a chat; nothing is ever deleted from the store.
use vstd::prelude::*;

use agent_client_protocol::v1::schema::{ContentBlock, TextContent};

use crate::ids::{is_uuid_text, new_uuid_text, utc_now, Timestamp};
use crate::seqs::{first_index, is_first_at, lemma_first_index_absent, lemma_first_index_is};
use crate::text::{chars_of, concat_str, decimal, decimal_string, str_eq, trim, trim_chars};

verus! {

#[verifier::external_type_specification]
#[verifier::external_body]
pub struct ExContentBlock(ContentBlock);

/// Cloning a content block (its derived `Clone`) gives an equal block.
pub assume_specification[ <ContentBlock as Clone>::clone ](b: &ContentBlock) -> (r: ContentBlock)
    ensures
        r == *b,
;

/// The text content block that holds `text`.
pub uninterp spec fn text_block(text: Seq<char>) -> ContentBlock;

/// A text content block (`ContentBlock::Text(TextContent::new(text))`).
/// Trusted: the block is `text_block` of the text.
#[verifier::external_body]
fn text_content_block(text: String) -> (b: ContentBlock)
    ensures
        b == text_block(text@),
{
    ContentBlock::Text(TextContent::new(text))
}

/// Identifier of a live agent view.
#[derive(Debug, Clone, Copy, PartialEq, Eq, Hash, Structural)]
pub struct AgentId(pub u64);

/// A single durable side chat attached to a parent agent.
///
/// `parent_snapshot` is hidden reference context: the model sees it, the
/// transcript does not show it.  Only `transcript` renders in the side view.
#[derive(Debug)]
pub struct SideChat {
    /// Stable id, `side-<uuid>`.
    pub id: String,
    /// Owning parent agent id.
    pub parent_id: String,
    /// Hidden parent history copied at creation time.
    pub parent_snapshot: Vec<ContentBlock>,
    /// Session id of this side chat, `side-session-<uuid>`.
    pub session_id: String,
    /// Visible transcript: the prompt and the follow-ups.
    pub transcript: Vec<ContentBlock>,
    /// Number of turns taken in this side chat.
    pub turn_count: usize,
    /// Archived (closed, not deleted).
    pub archived: bool,
    /// Collapsed in the list.
    pub minimized: bool,
    /// Friendly label for the UI, e.g. "Side 1".
    pub label: String,
    /// Unsent prompt.
    pub draft: String,
    /// Transient agent linkage, never persisted.
    pub agent_id: Option<AgentId>,
    /// Creation time.
    pub created_at: Timestamp,
    /// Last activity time.
    pub last_active: Timestamp,
}

/// The abstract content of a side chat.
pub ghost struct SideChatView {
    pub id: Seq<char>,
    pub parent_id: Seq<char>,
    pub parent_snapshot: Seq<ContentBlock>,
    pub session_id: Seq<char>,
    pub transcript: Seq<ContentBlock>,
    pub turn_count: usize,
    pub archived: bool,
    pub minimized: bool,
    pub label: Seq<char>,
    pub draft: Seq<char>,
    pub agent_id: Option<AgentId>,
    pub created_at: Timestamp,
    pub last_active: Timestamp,
}

impl View for SideChat {
    type V = SideChatView;

    open spec fn view(&self) -> SideChatView {
        SideChatView {
            id: self.id@,
            parent_id: self.parent_id@,
            parent_snapshot: self.parent_snapshot@,
            session_id: self.session_id@,
            transcript: self.transcript@,
            turn_count: self.turn_count,
            archived: self.archived,
            minimized: self.minimized,
            label: self.label@,
            draft: self.draft@,
            agent_id: self.agent_id,
            created_at: self.created_at,
            last_active: self.last_active,
        }
    }
}

/// `a` and `b` agree on everything but the last-activity time.
pub open spec fn same_but_activity(a: SideChatView, b: SideChatView) -> bool {
    a == SideChatView { last_active: a.last_active, ..b }
}

/// The view of an optional string.
pub open spec fn opt_text(o: Option<String>) -> Option<Seq<char>> {
    match o {
        Some(s) => Some(s@),
        None => None,
    }
}

/// The transcript a new chat starts with: the prompt, unless it is blank.
pub open spec fn initial_transcript(prompt: Option<Seq<char>>) -> Seq<ContentBlock> {
    match prompt {
        Some(p) => if trim(p).len() > 0 {
            seq![text_block(p)]
        } else {
            Seq::empty()
        },
        None => Seq::empty(),
    }
}

/// `s` is `prefix` followed by a UUID in text form.
pub open spec fn is_prefixed_uuid(s: Seq<char>, prefix: Seq<char>) -> bool {
    &&& s.len() == prefix.len() + 36
    &&& s.take(prefix.len() as int) == prefix
    &&& is_uuid_text(s.skip(prefix.len() as int))
}

/// A chat as `SideChat::with_snapshot` creates it, up to its label.
pub open spec fn fresh_chat(
    c: SideChatView,
    parent_id: Seq<char>,
    snapshot: Seq<ContentBlock>,
    prompt: Option<Seq<char>>,
) -> bool {
    &&& is_prefixed_uuid(c.id, "side-"@)
    &&& is_prefixed_uuid(c.session_id, "side-session-"@)
    &&& c.parent_id == parent_id
    &&& c.parent_snapshot == snapshot
    &&& c.transcript == initial_transcript(prompt)
    &&& c.turn_count == 0
    &&& !c.archived
    &&& !c.minimized
    &&& c.draft.len() == 0
    &&& c.agent_id is None
    &&& c.created_at == c.last_active
}

/// The label of the next chat in a store that holds `n` chats.
pub open spec fn side_label(n: nat) -> Seq<char> {
    "Side "@ + decimal(n + 1)
}

/// `s` followed by a fresh UUID.
pub(crate) fn prefixed_uuid(prefix: &str) -> (r: String)
    ensures
        is_prefixed_uuid(r@, prefix@),
{
    let u = new_uuid_text();
    let r = concat_str(prefix, u.as_str());
    assert(r@.take(prefix@.len() as int) =~= prefix@);
    assert(r@.skip(prefix@.len() as int) =~= u@);
    r
}

/// A copy of a list of content blocks.
fn copy_blocks(v: &Vec<ContentBlock>) -> (r: Vec<ContentBlock>)
    ensures
        r@ == v@,
{
    let mut r: Vec<ContentBlock> = Vec::new();
    let mut i: usize = 0;
    while i < v.len()
        invariant
            i <= v@.len(),
            r@ == v@.take(i as int),
        decreases v@.len() - i,
    {
        r.push(v[i].clone());
        assert(v@.take(i + 1) =~= v@.take(i as int).push(v@[i as int]));
        i = i + 1;
    }
    assert(v@.take(v@.len() as int) =~= v@);
    r
}

impl SideChat {
    /// Create a side chat anchored to `parent_id`; a prompt that is not
    /// blank starts the transcript.
    pub fn new(parent_id: String, prompt: Option<String>) -> (c: Self)
        ensures
            fresh_chat(c@, parent_id@, Seq::empty(), opt_text(prompt)),
            c@.label.len() == 0,
    {
        let now = utc_now();
        let id = prefixed_uuid("side-");
        let session_id = prefixed_uuid("side-session-");
        let mut transcript: Vec<ContentBlock> = Vec::new();
        match prompt {
            Some(p) => {
                let t = trim_chars(chars_of(p.as_str()).as_slice());
                if t.len() > 0 {
                    transcript.push(text_content_block(p));
                    assert(transcript@ =~= initial_transcript(opt_text(Some(p))));
                }
            },
            None => {},
        }
        SideChat {
            id,
            parent_id,
            parent_snapshot: Vec::new(),
            session_id,
            transcript,
            turn_count: 0,
            archived: false,
            minimized: false,
            label: String::new(),
            draft: String::new(),
            agent_id: None,
            created_at: now,
            last_active: now,
        }
    }

    /// Create with an explicit hidden parent snapshot.
    pub fn with_snapshot(
        parent_id: String,
        parent_snapshot: Vec<ContentBlock>,
        prompt: Option<String>,
    ) -> (c: Self)
        ensures
            fresh_chat(c@, parent_id@, parent_snapshot@, opt_text(prompt)),
            c@.label.len() == 0,
    {
        let mut chat = Self::new(parent_id, prompt);
        chat.parent_snapshot = parent_snapshot;
        chat
    }

    /// A side chat cannot create a nested side chat.
    pub fn can_create_nested(&self) -> (r: bool)
        ensures
            !r,
    {
        false
    }

    /// Mark activity now and count one more turn (saturating).
    pub fn touch(&mut self)
        ensures
            final(self)@ == (SideChatView {
                turn_count: if old(self).turn_count == usize::MAX {
                    usize::MAX
                } else {
                    (old(self).turn_count + 1) as usize
                },
                last_active: final(self)@.last_active,
                ..old(self)@
            }),
    {
        self.last_active = utc_now();
        self.turn_count = self.turn_count.saturating_add(1);
    }

    /// Append a follow-up (unless it is blank), count the turn, and return
    /// the new turn count.
    pub fn append_message(&mut self, text: String) -> (n: usize)
        ensures
            final(self)@ == (SideChatView {
                transcript: if trim(text@).len() > 0 {
                    old(self)@.transcript.push(text_block(text@))
                } else {
                    old(self)@.transcript
                },
                turn_count: if old(self).turn_count == usize::MAX {
                    usize::MAX
                } else {
                    (old(self).turn_count + 1) as usize
                },
                last_active: final(self)@.last_active,
                ..old(self)@
            }),
            n == final(self).turn_count,
    {
        let t = trim_chars(chars_of(text.as_str()).as_slice());
        if t.len() > 0 {
            let ghost text_view = text@;
            self.transcript.push(text_content_block(text));
            assert(self.transcript@ == old(self).transcript@.push(text_block(text_view)));
        }
        self.touch();
        self.turn_count
    }

    /// Display label: `label` when it is not blank, else the last six bytes
    /// of the id (the whole id when it is that short).
    pub fn friendly_label(&self) -> (r: String)
        requires
            vstd::utf8::encode_utf8(self.id@).len() <= usize::MAX,
            trim(self.label@).len() == 0 && vstd::utf8::encode_utf8(self.id@).len() > 6
                ==> vstd::utf8::is_char_boundary(
                vstd::utf8::encode_utf8(self.id@),
                vstd::utf8::encode_utf8(self.id@).len() - 6,
            ),
        ensures
            trim(self.label@).len() > 0 ==> r@ == self.label@,
            trim(self.label@).len() == 0 && vstd::utf8::encode_utf8(self.id@).len() > 6
                ==> vstd::utf8::encode_utf8(r@) == vstd::utf8::encode_utf8(self.id@).subrange(
                vstd::utf8::encode_utf8(self.id@).len() - 6,
                vstd::utf8::encode_utf8(self.id@).len() as int,
            ),
            trim(self.label@).len() == 0 && vstd::utf8::encode_utf8(self.id@).len() <= 6
                ==> r@ == self.id@,
    {
        let t = trim_chars(chars_of(self.label.as_str()).as_slice());
        if t.len() > 0 {
            return self.label.clone();
        }
        let s = self.id.as_str();
        let n = s.len();
        if n > 6 {
            let (_, tail) = s.split_at(n - 6);
            tail.to_owned()
        } else {
            self.id.clone()
        }
    }

    /// Set the friendly label.
    pub fn set_label(&mut self, label: String)
        ensures
            final(self)@ == (SideChatView { label: label@, ..old(self)@ }),
    {
        self.label = label;
    }

    /// The label of the next chat in `store`: "Side N" with N = chats + 1.
    pub fn next_label(store: &SideChatStore) -> (r: String)
        requires
            store.chats@.len() < usize::MAX,
        ensures
            r@ == side_label(store.chats@.len()),
    {
        let n = decimal_string(store.chats.len() + 1);
        concat_str("Side ", n.as_str())
    }
}

impl Clone for SideChat {
    fn clone(&self) -> (r: Self)
        ensures
            r@ == self@,
    {
        SideChat {
            id: self.id.clone(),
            parent_id: self.parent_id.clone(),
            parent_snapshot: copy_blocks(&self.parent_snapshot),
            session_id: self.session_id.clone(),
            transcript: copy_blocks(&self.transcript),
            turn_count: self.turn_count,
            archived: self.archived,
            minimized: self.minimized,
            label: self.label.clone(),
            draft: self.draft.clone(),
            agent_id: self.agent_id,
            created_at: self.created_at,
            last_active: self.last_active,
        }
    }
}

/// Store of all side chats of the pager process, archived ones included,
/// in creation order.
#[derive(Debug, Clone)]
pub struct SideChatStore {
    /// All chats, archived ones included.
    pub chats: Vec<SideChat>,
    /// The active side chat, if any.
    pub active_id: Option<String>,
}

/// `after` is `before` with chat `i` (and only it) archived or re-opened as
/// `archived` says, its activity time renewed.
pub open spec fn archive_step(
    before: Seq<SideChatView>,
    after: Seq<SideChatView>,
    i: int,
    archived: bool,
) -> bool {
    &&& after.len() == before.len()
    &&& same_but_activity(after[i], SideChatView { archived: archived, ..before[i] })
    &&& forall|j: int| 0 <= j < before.len() && j != i ==> after[j] == before[j]
}

/// The views of a list of chats.
pub open spec fn chat_views(chats: Seq<SideChat>) -> Seq<SideChatView> {
    chats.map_values(|c: SideChat| c@)
}

/// The ids of a list of chat views.
pub open spec fn chat_ids(chats: Seq<SideChatView>) -> Seq<Seq<char>> {
    chats.map_values(|c: SideChatView| c.id)
}

/// The chats whose archived flag is `archived`, in order.
pub open spec fn chats_archived(chats: Seq<SideChatView>, archived: bool) -> Seq<SideChatView>
    decreases chats.len(),
{
    if chats.len() == 0 {
        chats
    } else {
        let r = chats_archived(chats.drop_last(), archived);
        if chats.last().archived == archived {
            r.push(chats.last())
        } else {
            r
        }
    }
}

/// Every chat is either archived or not.
pub proof fn law_active_and_archived_partition(chats: Seq<SideChatView>)
    ensures
        chats_archived(chats, false).len() + chats_archived(chats, true).len() == chats.len(),
    decreases chats.len(),
{
    if chats.len() > 0 {
        law_active_and_archived_partition(chats.drop_last());
    }
}

impl SideChatStore {
    /// The views of the chats.
    pub open spec fn views(&self) -> Seq<SideChatView> {
        chat_views(self.chats@)
    }

    /// The ids of the chats.
    pub open spec fn ids(&self) -> Seq<Seq<char>> {
        chat_ids(self.views())
    }

    /// The active id.
    pub open spec fn active_view(&self) -> Option<Seq<char>> {
        opt_text(self.active_id)
    }

    /// The store never points at a chat it does not hold.
    pub open spec fn wf(&self) -> bool {
        self.active_view() matches Some(a) ==> self.ids().contains(a)
    }

    /// Index of the first chat named `id`.
    fn find(&self, id: &str) -> (r: Option<usize>)
        ensures
            match r {
                Some(i) => first_index(self.ids(), id@) == i && is_first_at(self.ids(), id@, i as int),
                None => first_index(self.ids(), id@) == -1 && !self.ids().contains(id@),
            },
    {
        let ghost v = self.ids();
        let mut i: usize = 0;
        while i < self.chats.len()
            invariant
                v == self.ids(),
                i <= self.chats@.len(),
                forall|j: int| 0 <= j < i ==> v[j] != id@,
            decreases self.chats@.len() - i,
        {
            assert(v[i as int] == self.chats@[i as int].id@);
            if str_eq(self.chats[i].id.as_str(), id) {
                proof {
                    lemma_first_index_is(v, id@, i as int);
                }
                return Some(i);
            }
            i = i + 1;
        }
        proof {
            lemma_first_index_absent(v, id@);
        }
        None
    }

    /// An empty store.
    pub fn new() -> (s: Self)
        ensures
            s.views().len() == 0,
            s.active_view() is None,
            s.wf(),
    {
        SideChatStore { chats: Vec::new(), active_id: None }
    }

    /// Next friendly label: "Side N" with N = chats + 1.
    pub fn next_label(&self) -> (r: String)
        requires
            self.chats@.len() < usize::MAX,
        ensures
            r@ == side_label(self.chats@.len()),
    {
        SideChat::next_label(self)
    }

    /// Create a side chat attached to `parent_id`, label it "Side N", append
    /// it to the store and make it active.  Returns a copy of the new chat.
    pub fn create_side(&mut self, parent_id: String, prompt: Option<String>) -> (c: SideChat)
        requires
            old(self).chats@.len() < usize::MAX,
        ensures
            fresh_chat(c@, parent_id@, Seq::empty(), opt_text(prompt)),
            c@.label == side_label(old(self).chats@.len()),
            final(self).views() == old(self).views().push(c@),
            final(self).active_view() == Some(c@.id),
            final(self).wf(),
    {
        let mut chat = SideChat::new(parent_id, prompt);
        chat.label = self.next_label();
        self.insert_active(chat)
    }

    /// Create with a hidden parent snapshot; otherwise as `create_side`.
    pub fn create_side_with_snapshot(
        &mut self,
        parent_id: String,
        parent_snapshot: Vec<ContentBlock>,
        prompt: Option<String>,
    ) -> (c: SideChat)
        requires
            old(self).chats@.len() < usize::MAX,
        ensures
            fresh_chat(c@, parent_id@, parent_snapshot@, opt_text(prompt)),
            c@.label == side_label(old(self).chats@.len()),
            final(self).views() == old(self).views().push(c@),
            final(self).active_view() == Some(c@.id),
            final(self).wf(),
    {
        let mut chat = SideChat::with_snapshot(parent_id, parent_snapshot, prompt);
        chat.label = self.next_label();
        self.insert_active(chat)
    }

    /// Append `chat`, make it active and return a copy of it.
    fn insert_active(&mut self, chat: SideChat) -> (c: SideChat)
        ensures
            c@ == chat@,
            final(self).views() == old(self).views().push(chat@),
            final(self).active_view() == Some(chat@.id),
            final(self).wf(),
    {
        let cloned = chat.clone();
        let id = cloned.id.clone();
        self.chats.push(chat);
        self.active_id = Some(id);
        assert(self.views() =~= old(self).views().push(cloned@));
        assert(self.ids()[self.ids().len() - 1] == cloned@.id);
        cloned
    }

    /// All chats, archived ones included.
    pub fn list(&self) -> (r: &[SideChat])
        ensures
            r@ == self.chats@,
    {
        self.chats.as_slice()
    }

    /// The chats whose archived flag is `archived`, in order.
    fn list_where(&self, archived: bool) -> (r: Vec<&SideChat>)
        ensures
            r@.map_values(|c: &SideChat| c@) == chats_archived(self.views(), archived),
    {
        let ghost v = self.views();
        let mut r: Vec<&SideChat> = Vec::new();
        let mut i: usize = 0;
        while i < self.chats.len()
            invariant
                v == self.views(),
                i <= self.chats@.len(),
                r@.map_values(|c: &SideChat| c@) == chats_archived(v.take(i as int), archived),
            decreases self.chats@.len() - i,
        {
            assert(v.take(i + 1).drop_last() =~= v.take(i as int));
            assert(v.take(i + 1).last() == self.chats@[i as int]@);
            let ghost before = r@;
            if self.chats[i].archived == archived {
                r.push(&self.chats[i]);
                assert(r@.map_values(|c: &SideChat| c@) =~= before.map_values(|c: &SideChat| c@).push(
                    self.chats@[i as int]@,
                ));
            }
            i = i + 1;
        }
        assert(v.take(i as int) =~= v);
        r
    }

    /// The chats that are not archived.
    pub fn list_active(&self) -> (r: Vec<&SideChat>)
        ensures
            r@.map_values(|c: &SideChat| c@) == chats_archived(self.views(), false),
    {
        self.list_where(false)
    }

    /// The archived chats.
    pub fn list_archived(&self) -> (r: Vec<&SideChat>)
        ensures
            r@.map_values(|c: &SideChat| c@) == chats_archived(self.views(), true),
    {
        self.list_where(true)
    }

    /// Make the chat named `id` active and mark its activity.  Returns
    /// whether such a chat exists.
    pub fn switch(&mut self, id: &str) -> (r: bool)
        ensures
            ({
                let i = first_index(old(self).ids(), id@);
                &&& r == (i >= 0)
                &&& r ==> final(self).active_view() == Some(id@)
                    && final(self).views().len() == old(self).views().len()
                    && same_but_activity(final(self).views()[i], old(self).views()[i])
                    && forall|j: int| 0 <= j < old(self).views().len() && j != i
                        ==> final(self).views()[j] == old(self).views()[j]
                &&& !r ==> final(self).views() == old(self).views() && final(self).active_view()
                    == old(self).active_view()
            }),
            old(self).wf() ==> final(self).wf(),
    {
        match self.find(id) {
            None => false,
            Some(i) => {
                self.active_id = Some(id.to_owned());
                let now = utc_now();
                self.touch_activity(i, now);
                true
            },
        }
    }

    /// Set the activity time of chat `i` to `now`, leaving everything else.
    fn touch_activity(&mut self, i: usize, now: Timestamp)
        requires
            i < old(self).chats@.len(),
        ensures
            final(self).active_id == old(self).active_id,
            final(self).views() == old(self).views().update(
                i as int,
                SideChatView { last_active: now, ..old(self).views()[i as int] },
            ),
            final(self).ids() == old(self).ids(),
    {
        let mut chat = self.chats.remove(i);
        chat.last_active = now;
        self.chats.insert(i, chat);
        assert(self.views() =~= old(self).views().update(
            i as int,
            SideChatView { last_active: now, ..old(self).views()[i as int] },
        ));
        assert(self.ids() =~= old(self).ids());
    }

    /// The active chat, if the active id names one.
    pub fn active(&self) -> (r: Option<&SideChat>)
        ensures
            match self.active_view() {
                None => r is None,
                Some(a) => {
                    let i = first_index(self.ids(), a);
                    &&& i < 0 ==> r is None
                    &&& i >= 0 ==> (r matches Some(c) && c@ == self.views()[i])
                },
            },
    {
        match &self.active_id {
            None => None,
            Some(a) => self.get(a.as_str()),
        }
    }

    /// The first chat named `id`.
    pub fn get(&self, id: &str) -> (r: Option<&SideChat>)
        ensures
            ({
                let i = first_index(self.ids(), id@);
                &&& i < 0 ==> r is None
                &&& i >= 0 ==> (r matches Some(c) && c@ == self.views()[i])
            }),
    {
        match self.find(id) {
            None => None,
            Some(i) => Some(&self.chats[i]),
        }
    }

    /// The active chat, for changing it in place.
    pub fn active_mut(&mut self) -> (r: Option<&mut SideChat>)
        ensures
            match old(self).active_view() {
                None => r is None && *final(self) == *old(self),
                Some(a) => {
                    let i = first_index(old(self).ids(), a);
                    &&& i < 0 ==> r is None && *final(self) == *old(self)
                    &&& i >= 0 ==> r is Some && *r->0 == old(self).chats@[i] && final(self).chats@
                        == old(self).chats@.update(i, *final(r->0)) && final(self).active_id
                        == old(self).active_id
                },
            },
    {
        let id = match &self.active_id {
            None => return None,
            Some(a) => a.clone(),
        };
        self.get_mut(id.as_str())
    }

    /// The first chat named `id`, for changing it in place.
    pub fn get_mut(&mut self, id: &str) -> (r: Option<&mut SideChat>)
        ensures
            ({
                let i = first_index(old(self).ids(), id@);
                &&& i < 0 ==> r is None && *final(self) == *old(self)
                &&& i >= 0 ==> r is Some && *r->0 == old(self).chats@[i] && final(self).chats@
                    == old(self).chats@.update(i, *final(r->0)) && final(self).active_id == old(
                    self,
                ).active_id
            }),
    {
        match self.find(id) {
            None => None,
            Some(i) => Some(&mut self.chats[i]),
        }
    }

    /// Archive the first chat named `id` (closing archives, it never
    /// deletes) and clear the active id if it named that chat.  Returns
    /// whether such a chat exists.
    pub fn close(&mut self, id: &str) -> (r: bool)
        ensures
            ({
                let i = first_index(old(self).ids(), id@);
                &&& r == (i >= 0)
                &&& r ==> archive_step(old(self).views(), final(self).views(), i, true)
                    && final(self).active_view() == (if old(self).active_view()
                    == Some(id@) {
                    None
                } else {
                    old(self).active_view()
                })
                &&& !r ==> final(self).views() == old(self).views() && final(self).active_view()
                    == old(self).active_view()
            }),
            old(self).wf() ==> final(self).wf(),
    {
        match self.find(id) {
            None => false,
            Some(i) => {
                let mut chat = self.chats.remove(i);
                chat.archived = true;
                chat.last_active = utc_now();
                self.chats.insert(i, chat);
                assert(self.ids() =~= old(self).ids());
                let clear = match &self.active_id {
                    Some(a) => str_eq(a.as_str(), id),
                    None => false,
                };
                if clear {
                    self.active_id = None;
                }
                true
            },
        }
    }

    /// Re-open the first chat named `id` if it is archived, and make it
    /// active.  Returns whether it was re-opened.
    pub fn open(&mut self, id: &str) -> (r: bool)
        ensures
            ({
                let i = first_index(old(self).ids(), id@);
                &&& r == (i >= 0 && old(self).views()[i].archived)
                &&& r ==> archive_step(old(self).views(), final(self).views(), i, false)
                    && final(self).active_view() == Some(id@)
                &&& !r ==> final(self).views() == old(self).views() && final(self).active_view()
                    == old(self).active_view()
            }),
            old(self).wf() ==> final(self).wf(),
    {
        match self.find(id) {
            None => false,
            Some(i) => {
                if !self.chats[i].archived {
                    return false;
                }
                let mut chat = self.chats.remove(i);
                chat.archived = false;
                chat.last_active = utc_now();
                self.chats.insert(i, chat);
                assert(self.ids() =~= old(self).ids());
                self.active_id = Some(id.to_owned());
                true
            },
        }
    }

    /// Number of chats, archived ones included.
    pub fn len(&self) -> (n: usize)
        ensures
            n == self.views().len(),
    {
        self.chats.len()
    }

    /// Whether the store holds no chat.
    pub fn is_empty(&self) -> (r: bool)
        ensures
            r == (self.views().len() == 0),
    {
        self.chats.is_empty()
    }
}

impl Default for SideChatStore {
    fn default() -> (s: Self)
        ensures
            s.views().len() == 0,
            s.active_view() is None,
    {
        SideChatStore::new()
    }
}

/// Re-opening a chat that closing archived restores it: the chats keep
/// their ids and order, every other chat is untouched, and the chat is as
/// before but for its activity time.
pub proof fn law_open_undoes_close(
    v0: Seq<SideChatView>,
    v1: Seq<SideChatView>,
    v2: Seq<SideChatView>,
    i: int,
)
    requires
        0 <= i < v0.len(),
        !v0[i].archived,
        archive_step(v0, v1, i, true),
        archive_step(v1, v2, i, false),
    ensures
        chat_ids(v1) == chat_ids(v0),
        v1[i].archived,
        v2.len() == v0.len(),
        same_but_activity(v2[i], v0[i]),
        forall|j: int| 0 <= j < v0.len() && j != i ==> v2[j] == v0[j],
{
    assert(chat_ids(v1) =~= chat_ids(v0)) by {
        assert forall|j: int| 0 <= j < v0.len() implies chat_ids(v1)[j] == chat_ids(v0)[j] by {
            if j == i {
                assert(v1[i].id == v0[i].id);
            }
        }
    }
}

} // verus!
