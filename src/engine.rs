//! The live set of graphics: each command is stored under its key, and each
//! tick counts every finite time-to-live down and expires what reached zero.
use vstd::prelude::*;
use crate::graphics_data::Graphic;

verus! {

/// Render ticks per second; an incoming time-to-live in seconds is scaled
/// by it.
pub const FPS: u32 = 1;

/// A graphic submitted by one client.
#[derive(Debug)]
pub struct Command {
    pub client_id: usize,
    pub graphic: Graphic,
}

/// An entry of the live set, keyed by its client and its graphic's id.
#[derive(Debug)]
pub struct LiveEntry {
    pub client_id: usize,
    pub graphic: Graphic,
}

pub open spec fn has_key(e: LiveEntry, client: usize, id: Seq<char>) -> bool {
    e.client_id == client && e.graphic.id@ == id
}

pub open spec fn same_key(a: LiveEntry, b: LiveEntry) -> bool {
    has_key(a, b.client_id, b.graphic.id@)
}

/// No two entries share a key.
pub open spec fn well_formed(s: Seq<LiveEntry>) -> bool {
    forall|i: int, j: int|
        0 <= i < s.len() && 0 <= j < s.len() && i != j ==> !same_key(#[trigger] s[i], #[trigger] s[j])
}

pub open spec fn with_ttl(g: Graphic, ttl: int) -> Graphic {
    Graphic { id: g.id, ttl: ttl as isize, drawable: g.drawable }
}

/// The graphic with its time-to-live turned from seconds into ticks.
pub open spec fn scaled(g: Graphic) -> Graphic {
    with_ttl(g, g.ttl * FPS as int)
}

/// The index of the entry under a key, if there is one.
pub open spec fn find_key(s: Seq<LiveEntry>, client: usize, id: Seq<char>) -> Option<int> {
    if exists|i: int| 0 <= i < s.len() && has_key(#[trigger] s[i], client, id) {
        Some(choose|i: int| 0 <= i < s.len() && has_key(#[trigger] s[i], client, id))
    } else {
        None
    }
}

/// The live set after a command: the command's graphic, its time-to-live
/// scaled to ticks, takes the place of what stood under its key, or is
/// appended. A deletion marker (no drawable) is stored like any other
/// graphic; with a time-to-live of zero the next tick expires it.
pub open spec fn after_command(s: Seq<LiveEntry>, c: Command) -> Seq<LiveEntry> {
    let e = LiveEntry { client_id: c.client_id, graphic: scaled(c.graphic) };
    match find_key(s, c.client_id, c.graphic.id@) {
        Some(i) => s.update(i, e),
        None => s.push(e),
    }
}

/// What a command takes out of the live set: the graphic that stood under
/// its key, if any.
pub open spec fn expired_by_command(s: Seq<LiveEntry>, c: Command) -> Seq<Graphic> {
    match find_key(s, c.client_id, c.graphic.id@) {
        Some(i) => seq![s[i].graphic],
        None => Seq::empty(),
    }
}

/// An entry one tick older: a positive time-to-live drops by one, a
/// negative one never changes.
pub open spec fn aged(e: LiveEntry) -> LiveEntry {
    if e.graphic.ttl > 0 {
        LiveEntry { client_id: e.client_id, graphic: with_ttl(e.graphic, e.graphic.ttl - 1) }
    } else {
        e
    }
}

/// The entries that outlive a tick, in order, each one tick older.
pub open spec fn tick_survivors(s: Seq<LiveEntry>) -> Seq<LiveEntry>
    decreases s.len(),
{
    if s.len() == 0 {
        Seq::empty()
    } else {
        let rest = tick_survivors(s.drop_first());
        if s[0].graphic.ttl == 0 {
            rest
        } else {
            seq![aged(s[0])] + rest
        }
    }
}

/// The graphics that a tick expires, in order: those whose time-to-live
/// had reached zero.
pub open spec fn tick_expired(s: Seq<LiveEntry>) -> Seq<Graphic>
    decreases s.len(),
{
    if s.len() == 0 {
        Seq::empty()
    } else {
        let rest = tick_expired(s.drop_first());
        if s[0].graphic.ttl == 0 {
            seq![s[0].graphic] + rest
        } else {
            rest
        }
    }
}

/// The live set after `n` ticks with no command in between.
pub open spec fn ticks(s: Seq<LiveEntry>, n: nat) -> Seq<LiveEntry>
    decreases n,
{
    if n == 0 {
        s
    } else {
        tick_survivors(ticks(s, (n - 1) as nat))
    }
}

/// The owner of the live set.
pub struct Overlay {
    entries: Vec<LiveEntry>,
}

impl Overlay {
    pub closed spec fn view(&self) -> Seq<LiveEntry> {
        self.entries@
    }

    pub open spec fn wf(&self) -> bool {
        well_formed(self.view())
    }

    /// An empty live set.
    pub fn new() -> (r: Overlay)
        ensures
            r.wf(),
            r.view() == Seq::<LiveEntry>::empty(),
    {
        Overlay { entries: Vec::new() }
    }

    /// The complete live set, in order.
    pub fn snapshot(&self) -> (r: &Vec<LiveEntry>)
        ensures
            r@ == self.view(),
    {
        &self.entries
    }

    /// Where the entry under a key stands.
    fn position(&self, client_id: usize, id: &String) -> (r: Option<usize>)
        ensures
            match r {
                Some(i) => i < self.view().len() && has_key(self.view()[i as int], client_id, id@),
                None => forall|j: int|
                    0 <= j < self.view().len() ==> !has_key(#[trigger] self.view()[j], client_id, id@),
            },
    {
        let n = self.entries.len();
        let mut i: usize = 0;
        while i < n
            invariant
                n == self.entries@.len(),
                i <= n,
                forall|j: int| 0 <= j < i ==> !has_key(#[trigger] self.entries@[j], client_id, id@),
            decreases n - i,
        {
            if self.entries[i].client_id == client_id && self.entries[i].graphic.id == *id {
                return Some(i);
            }
            i = i + 1;
        }
        None
    }

    /// Applies one command: its time-to-live is scaled to ticks, it replaces
    /// the entry under its key or is appended, and what it displaced is
    /// returned for erasure.
    pub fn handle_command(&mut self, command: Command) -> (expired: Vec<Graphic>)
        requires
            old(self).wf(),
        ensures
            final(self).wf(),
            final(self).view() == after_command(old(self).view(), command),
            expired@ == expired_by_command(old(self).view(), command),
    {
        let ghost s = self.view();
        let Command { client_id, graphic } = command;
        let mut graphic = graphic;
        graphic.ttl = graphic.ttl * (FPS as isize);
        assert(graphic == scaled(command.graphic));
        let found = self.position(client_id, &graphic.id);
        proof {
            lemma_command_keeps_well_formed(s, command);
        }
        match found {
            Some(i) => {
                proof {
                    lemma_find_key_unique(s, client_id, graphic.id@, i as int);
                }
                let previous = self.entries.remove(i);
                self.entries.insert(i, LiveEntry { client_id, graphic });
                proof {
                    assert(self.entries@ =~= after_command(s, command));
                }
                let mut expired = Vec::new();
                expired.push(previous.graphic);
                proof {
                    assert(expired@ =~= expired_by_command(s, command));
                }
                expired
            },
            None => {
                proof {
                    assert(find_key(s, client_id, graphic.id@) is None);
                }
                self.entries.push(LiveEntry { client_id, graphic });
                proof {
                    assert(self.entries@ =~= after_command(s, command));
                }
                let expired = Vec::new();
                proof {
                    assert(expired@ =~= expired_by_command(s, command));
                }
                expired
            },
        }
    }

    /// One render tick: entries whose time-to-live is zero leave the live set
    /// and are returned, positive ones count down by one, negative ones stay.
    pub fn tick(&mut self) -> (expired: Vec<Graphic>)
        requires
            old(self).wf(),
        ensures
            final(self).wf(),
            final(self).view() == tick_survivors(old(self).view()),
            expired@ == tick_expired(old(self).view()),
    {
        let ghost s = self.view();
        let mut pending: Vec<LiveEntry> = Vec::new();
        std::mem::swap(&mut pending, &mut self.entries);
        let mut expired: Vec<Graphic> = Vec::new();
        while pending.len() > 0
            invariant
                self.entries@ + tick_survivors(pending@) == tick_survivors(s),
                expired@ + tick_expired(pending@) == tick_expired(s),
                well_formed(self.entries@),
                well_formed(pending@),
                forall|a: int, b: int|
                    0 <= a < self.entries@.len() && 0 <= b < pending@.len() ==>
                    !same_key(#[trigger] self.entries@[a], #[trigger] pending@[b]),
            decreases pending@.len(),
        {
            let ghost before = pending@;
            let ghost kept = self.entries@;
            let mut entry = pending.remove(0);
            assert(pending@ =~= before.drop_first());
            assert forall|a: int| 0 <= a < pending@.len() implies
                #[trigger] pending@[a] == before[a + 1] by {}
            if entry.graphic.ttl == 0 {
                expired.push(entry.graphic);
                assert(expired@ + tick_expired(pending@) =~= tick_expired(s)) by {
                    assert(seq![entry.graphic] + tick_expired(pending@) == tick_expired(before));
                    assert(expired@ =~= (expired@.drop_last()) + seq![entry.graphic]);
                }
            } else {
                if entry.graphic.ttl > 0 {
                    entry.graphic.ttl = entry.graphic.ttl - 1;
                }
                assert(entry == aged(before[0]));
                self.entries.push(entry);
                assert(self.entries@ + tick_survivors(pending@) =~= tick_survivors(s)) by {
                    assert(seq![aged(before[0])] + tick_survivors(pending@) == tick_survivors(before));
                    assert(self.entries@ =~= kept + seq![aged(before[0])]);
                }
                assert forall|a: int, b: int|
                    0 <= a < self.entries@.len() && 0 <= b < self.entries@.len() && a != b
                    implies !same_key(#[trigger] self.entries@[a], #[trigger] self.entries@[b]) by {
                    if a < kept.len() && b < kept.len() {
                        assert(self.entries@[a] == kept[a]);
                        assert(self.entries@[b] == kept[b]);
                    } else if a < kept.len() {
                        assert(self.entries@[a] == kept[a]);
                        assert(!same_key(kept[a], before[0]));
                    } else {
                        assert(self.entries@[b] == kept[b]);
                        assert(!same_key(kept[b], before[0]));
                    }
                }
                assert forall|a: int, b: int|
                    0 <= a < self.entries@.len() && 0 <= b < pending@.len()
                    implies !same_key(#[trigger] self.entries@[a], #[trigger] pending@[b]) by {
                    assert(pending@[b] == before[b + 1]);
                    if a < kept.len() {
                        assert(self.entries@[a] == kept[a]);
                    } else {
                        assert(!same_key(before[0], before[b + 1]));
                    }
                }
            }
        }
        assert(pending@ =~= Seq::<LiveEntry>::empty());
        assert(self.entries@ =~= tick_survivors(s));
        assert(expired@ =~= tick_expired(s));
        expired
    }
}

/// Under the key `(client, g.id)` the live set holds `g`, and nothing else.
pub open spec fn holds_only(s: Seq<LiveEntry>, client: usize, g: Graphic) -> bool {
    &&& s.contains(LiveEntry { client_id: client, graphic: g })
    &&& forall|j: int| 0 <= j < s.len() && has_key(#[trigger] s[j], client, g.id@) ==> s[j].graphic == g
}

/// No entry of the live set has the key `(client, id)`.
pub open spec fn absent(s: Seq<LiveEntry>, client: usize, id: Seq<char>) -> bool {
    forall|j: int| 0 <= j < s.len() ==> !has_key(#[trigger] s[j], client, id)
}

proof fn lemma_survivor_origin(s: Seq<LiveEntry>, j: int)
    requires
        0 <= j < tick_survivors(s).len(),
    ensures
        exists|i: int| 0 <= i < s.len() && s[i].graphic.ttl != 0 && tick_survivors(s)[j] == aged(#[trigger] s[i]),
    decreases s.len(),
{
    let rest = tick_survivors(s.drop_first());
    if s[0].graphic.ttl == 0 {
        lemma_survivor_origin(s.drop_first(), j);
        let i = choose|i: int| 0 <= i < s.drop_first().len() && s.drop_first()[i].graphic.ttl != 0
            && rest[j] == aged(#[trigger] s.drop_first()[i]);
        assert(s[i + 1] == s.drop_first()[i]);
    } else if j == 0 {
        assert(tick_survivors(s)[0] == aged(s[0]));
    } else {
        assert(tick_survivors(s)[j] == rest[j - 1]);
        lemma_survivor_origin(s.drop_first(), j - 1);
        let i = choose|i: int| 0 <= i < s.drop_first().len() && s.drop_first()[i].graphic.ttl != 0
            && rest[j - 1] == aged(#[trigger] s.drop_first()[i]);
        assert(s[i + 1] == s.drop_first()[i]);
    }
}

proof fn lemma_survivor_kept(s: Seq<LiveEntry>, i: int)
    requires
        0 <= i < s.len(),
        s[i].graphic.ttl != 0,
    ensures
        tick_survivors(s).contains(aged(s[i])),
    decreases s.len(),
{
    let rest = tick_survivors(s.drop_first());
    if i == 0 {
        assert(tick_survivors(s)[0] == aged(s[0]));
    } else {
        assert(s.drop_first()[i - 1] == s[i]);
        lemma_survivor_kept(s.drop_first(), i - 1);
        let k = choose|k: int| 0 <= k < rest.len() && rest[k] == aged(s[i]);
        if s[0].graphic.ttl == 0 {
            assert(tick_survivors(s)[k] == aged(s[i]));
        } else {
            assert(tick_survivors(s)[k + 1] == aged(s[i]));
        }
    }
}

proof fn lemma_expired_kept(s: Seq<LiveEntry>, i: int)
    requires
        0 <= i < s.len(),
        s[i].graphic.ttl == 0,
    ensures
        tick_expired(s).contains(s[i].graphic),
    decreases s.len(),
{
    let rest = tick_expired(s.drop_first());
    if i == 0 {
        assert(tick_expired(s)[0] == s[0].graphic);
    } else {
        assert(s.drop_first()[i - 1] == s[i]);
        lemma_expired_kept(s.drop_first(), i - 1);
        let k = choose|k: int| 0 <= k < rest.len() && rest[k] == s[i].graphic;
        if s[0].graphic.ttl == 0 {
            assert(tick_expired(s)[k + 1] == s[i].graphic);
        } else {
            assert(tick_expired(s)[k] == s[i].graphic);
        }
    }
}

proof fn lemma_tick_step(s: Seq<LiveEntry>, client: usize, g: Graphic)
    requires
        holds_only(s, client, g),
    ensures
        g.ttl > 0 ==> holds_only(tick_survivors(s), client, with_ttl(g, g.ttl - 1)),
        g.ttl < 0 ==> holds_only(tick_survivors(s), client, g),
        g.ttl == 0 ==> absent(tick_survivors(s), client, g.id@),
        g.ttl == 0 ==> tick_expired(s).contains(g),
{
    let e = LiveEntry { client_id: client, graphic: g };
    let i = choose|i: int| 0 <= i < s.len() && s[i] == e;
    let t = tick_survivors(s);
    if g.ttl == 0 {
        lemma_expired_kept(s, i);
    } else {
        lemma_survivor_kept(s, i);
        assert(with_ttl(g, g.ttl as int) == g);
    }
    assert forall|j: int| 0 <= j < t.len() && has_key(#[trigger] t[j], client, g.id@) implies
        g.ttl != 0 && t[j].graphic == (if g.ttl > 0 { with_ttl(g, g.ttl - 1) } else { g }) by {
        lemma_survivor_origin(s, j);
        let k = choose|k: int| 0 <= k < s.len() && s[k].graphic.ttl != 0 && t[j] == aged(#[trigger] s[k]);
        assert(has_key(s[k], client, g.id@));
        assert(s[k].graphic == g);
    }
}

proof fn lemma_absent_stays(s: Seq<LiveEntry>, client: usize, id: Seq<char>)
    requires
        absent(s, client, id),
    ensures
        absent(tick_survivors(s), client, id),
{
    let t = tick_survivors(s);
    assert forall|j: int| 0 <= j < t.len() implies !has_key(#[trigger] t[j], client, id) by {
        lemma_survivor_origin(s, j);
        let k = choose|k: int| 0 <= k < s.len() && s[k].graphic.ttl != 0 && t[j] == aged(#[trigger] s[k]);
        assert(!has_key(s[k], client, id));
    }
}

proof fn lemma_find_key_unique(s: Seq<LiveEntry>, client: usize, id: Seq<char>, i: int)
    requires
        well_formed(s),
        0 <= i < s.len(),
        has_key(s[i], client, id),
    ensures
        find_key(s, client, id) == Some(i),
        forall|j: int| 0 <= j < s.len() && has_key(#[trigger] s[j], client, id) ==> j == i,
{
    assert forall|j: int| 0 <= j < s.len() && has_key(#[trigger] s[j], client, id) implies j == i by {
        if j != i {
            assert(same_key(s[i], s[j]));
        }
    }
}


/// A command keeps the live set well formed.
pub proof fn lemma_command_keeps_well_formed(s: Seq<LiveEntry>, c: Command)
    requires
        well_formed(s),
    ensures
        well_formed(after_command(s, c)),
{
    let id = c.graphic.id@;
    let r = after_command(s, c);
    if exists|i: int| 0 <= i < s.len() && has_key(#[trigger] s[i], c.client_id, id) {
        let i = choose|i: int| 0 <= i < s.len() && has_key(#[trigger] s[i], c.client_id, id);
        lemma_find_key_unique(s, c.client_id, id, i);
        assert forall|a: int, b: int| 0 <= a < r.len() && 0 <= b < r.len() && a != b implies
            !same_key(#[trigger] r[a], #[trigger] r[b]) by {
            if a != i && b != i {
                assert(r[a] == s[a] && r[b] == s[b]);
            } else if a == i {
                assert(r[b] == s[b]);
                assert(!same_key(s[i], s[b]));
            } else {
                assert(r[a] == s[a]);
                assert(!same_key(s[a], s[i]));
            }
        }
    } else {
        assert forall|a: int, b: int| 0 <= a < r.len() && 0 <= b < r.len() && a != b implies
            !same_key(#[trigger] r[a], #[trigger] r[b]) by {
            if a < s.len() && b < s.len() {
                assert(r[a] == s[a] && r[b] == s[b]);
            } else if a < s.len() {
                assert(r[a] == s[a]);
                assert(!has_key(s[a], c.client_id, id));
            } else {
                assert(r[b] == s[b]);
                assert(!has_key(s[b], c.client_id, id));
            }
        }
    }
}

/// A command leaves its own graphic, with its time-to-live in ticks, as the
/// one value under its key, deletion markers included.
pub proof fn lemma_command_installs(s: Seq<LiveEntry>, c: Command)
    requires
        well_formed(s),
    ensures
        holds_only(after_command(s, c), c.client_id, scaled(c.graphic)),
{
    let id = c.graphic.id@;
    let r = after_command(s, c);
    let e = LiveEntry { client_id: c.client_id, graphic: scaled(c.graphic) };
    if exists|i: int| 0 <= i < s.len() && has_key(#[trigger] s[i], c.client_id, id) {
        let i = choose|i: int| 0 <= i < s.len() && has_key(#[trigger] s[i], c.client_id, id);
        lemma_find_key_unique(s, c.client_id, id, i);
        assert(r[i] == e);
        assert forall|j: int| 0 <= j < r.len() && has_key(#[trigger] r[j], c.client_id, id) implies
            r[j].graphic == scaled(c.graphic) by {
            if j != i {
                assert(r[j] == s[j]);
            }
        }
    } else {
        assert(r[s.len() as int] == e);
        assert forall|j: int| 0 <= j < r.len() && has_key(#[trigger] r[j], c.client_id, id) implies
            r[j].graphic == scaled(c.graphic) by {
            if j < s.len() {
                assert(r[j] == s[j]);
            }
        }
    }
}

proof fn lemma_other_command_keeps(s: Seq<LiveEntry>, c: Command, client: usize, g: Graphic)
    requires
        holds_only(s, client, g),
        !(c.client_id == client && c.graphic.id@ == g.id@),
    ensures
        holds_only(after_command(s, c), client, g),
{
    let r = after_command(s, c);
    let e = LiveEntry { client_id: client, graphic: g };
    let k = choose|k: int| 0 <= k < s.len() && s[k] == e;
    match find_key(s, c.client_id, c.graphic.id@) {
        Some(i) => {
            assert(has_key(s[i], c.client_id, c.graphic.id@));
            assert(i != k);
            assert(r[k] == e);
            assert forall|j: int| 0 <= j < r.len() && has_key(#[trigger] r[j], client, g.id@) implies
                r[j].graphic == g by {
                if j != i {
                    assert(r[j] == s[j]);
                }
            }
        },
        None => {
            assert(r[k] == e);
            assert forall|j: int| 0 <= j < r.len() && has_key(#[trigger] r[j], client, g.id@) implies
                r[j].graphic == g by {
                if j < s.len() {
                    assert(r[j] == s[j]);
                }
            }
        },
    }
}

proof fn lemma_other_command_keeps_absent(s: Seq<LiveEntry>, c: Command, client: usize, id: Seq<char>)
    requires
        absent(s, client, id),
        !(c.client_id == client && c.graphic.id@ == id),
    ensures
        absent(after_command(s, c), client, id),
{
    let r = after_command(s, c);
    match find_key(s, c.client_id, c.graphic.id@) {
        Some(i) => {
            assert forall|j: int| 0 <= j < r.len() implies !has_key(#[trigger] r[j], client, id) by {
                if j != i {
                    assert(r[j] == s[j]);
                }
            }
        },
        None => {
            assert forall|j: int| 0 <= j < r.len() implies !has_key(#[trigger] r[j], client, id) by {
                if j < s.len() {
                    assert(r[j] == s[j]);
                }
            }
        },
    }
}

/// What can reach the engine: a command, or the tick of the timer.
#[derive(Debug)]
pub enum Event {
    Submit(Command),
    Tick,
}

pub open spec fn apply_event(s: Seq<LiveEntry>, e: Event) -> Seq<LiveEntry> {
    match e {
        Event::Submit(c) => after_command(s, c),
        Event::Tick => tick_survivors(s),
    }
}

/// The expired list handed to the redraw that follows an event.
pub open spec fn event_expired(s: Seq<LiveEntry>, e: Event) -> Seq<Graphic> {
    match e {
        Event::Submit(c) => expired_by_command(s, c),
        Event::Tick => tick_expired(s),
    }
}

/// The live set after a sequence of events, processed one at a time.
pub open spec fn run_events(s: Seq<LiveEntry>, events: Seq<Event>) -> Seq<LiveEntry>
    decreases events.len(),
{
    if events.len() == 0 {
        s
    } else {
        run_events(apply_event(s, events[0]), events.drop_first())
    }
}

/// How many ticks a sequence of events holds.
pub open spec fn tick_count(events: Seq<Event>) -> nat
    decreases events.len(),
{
    if events.len() == 0 {
        0
    } else {
        (if events[0] is Tick { 1nat } else { 0nat }) + tick_count(events.drop_first())
    }
}

/// No command of the sequence uses the key `(client, id)`.
pub open spec fn spares_key(events: Seq<Event>, client: usize, id: Seq<char>) -> bool {
    forall|i: int| 0 <= i < events.len() ==> match #[trigger] events[i] {
        Event::Submit(c) => !(c.client_id == client && c.graphic.id@ == id),
        Event::Tick => true,
    }
}

proof fn lemma_spares_rest(events: Seq<Event>, client: usize, id: Seq<char>)
    requires
        events.len() > 0,
        spares_key(events, client, id),
    ensures
        spares_key(events.drop_first(), client, id),
{
    let rest = events.drop_first();
    assert forall|i: int| 0 <= i < rest.len() implies match #[trigger] rest[i] {
        Event::Submit(c) => !(c.client_id == client && c.graphic.id@ == id),
        Event::Tick => true,
    } by {
        assert(rest[i] == events[i + 1]);
    }
}

proof fn lemma_events_keep_absent(s: Seq<LiveEntry>, client: usize, id: Seq<char>, events: Seq<Event>)
    requires
        absent(s, client, id),
        spares_key(events, client, id),
    ensures
        absent(run_events(s, events), client, id),
    decreases events.len(),
{
    if events.len() > 0 {
        lemma_spares_rest(events, client, id);
        match events[0] {
            Event::Submit(c) => lemma_other_command_keeps_absent(s, c, client, id),
            Event::Tick => lemma_absent_stays(s, client, id),
        }
        lemma_events_keep_absent(apply_event(s, events[0]), client, id, events.drop_first());
    }
}

proof fn lemma_events_countdown(s: Seq<LiveEntry>, client: usize, g: Graphic, events: Seq<Event>)
    requires
        holds_only(s, client, g),
        g.ttl >= 0,
        spares_key(events, client, g.id@),
    ensures
        tick_count(events) <= g.ttl ==> holds_only(
            run_events(s, events),
            client,
            with_ttl(g, g.ttl - tick_count(events)),
        ),
        tick_count(events) > g.ttl ==> absent(run_events(s, events), client, g.id@),
    decreases events.len(),
{
    if events.len() == 0 {
        assert(with_ttl(g, g.ttl as int) == g);
    } else {
        let rest = events.drop_first();
        lemma_spares_rest(events, client, g.id@);
        let s1 = apply_event(s, events[0]);
        match events[0] {
            Event::Submit(c) => {
                lemma_other_command_keeps(s, c, client, g);
                lemma_events_countdown(s1, client, g, rest);
            },
            Event::Tick => {
                lemma_tick_step(s, client, g);
                if g.ttl > 0 {
                    let h = with_ttl(g, g.ttl - 1);
                    lemma_events_countdown(s1, client, h, rest);
                    assert(with_ttl(h, h.ttl - tick_count(rest)) == with_ttl(g, g.ttl - tick_count(events)));
                } else {
                    lemma_events_keep_absent(s1, client, g.id@, rest);
                }
            },
        }
    }
}

proof fn lemma_events_never_expire(s: Seq<LiveEntry>, client: usize, g: Graphic, events: Seq<Event>)
    requires
        holds_only(s, client, g),
        g.ttl < 0,
        spares_key(events, client, g.id@),
    ensures
        holds_only(run_events(s, events), client, g),
    decreases events.len(),
{
    if events.len() > 0 {
        lemma_spares_rest(events, client, g.id@);
        match events[0] {
            Event::Submit(c) => lemma_other_command_keeps(s, c, client, g),
            Event::Tick => lemma_tick_step(s, client, g),
        }
        lemma_events_never_expire(apply_event(s, events[0]), client, g, events.drop_first());
    }
}

/// Under the key `(client, g.id)` every entry draws what `g` draws.
pub open spec fn key_draws(s: Seq<LiveEntry>, client: usize, g: Graphic) -> bool {
    forall|j: int|
        0 <= j < s.len() && has_key(#[trigger] s[j], client, g.id@) ==> s[j].graphic.drawable == g.drawable
}

/// When a second command reuses the key of a first one, the redraw it
/// triggers expires the first graphic exactly once and the key then holds
/// only the second graphic. Through any later events that leave the key
/// alone, whatever stands under the key draws what the second graphic
/// draws.
pub proof fn lemma_replacement_expires_previous(
    s: Seq<LiveEntry>,
    first: Command,
    second: Command,
    later: Seq<Event>,
)
    requires
        well_formed(s),
        second.client_id == first.client_id,
        second.graphic.id@ == first.graphic.id@,
        spares_key(later, second.client_id, second.graphic.id@),
    ensures
        expired_by_command(after_command(s, first), second) == seq![scaled(first.graphic)],
        holds_only(after_command(after_command(s, first), second), second.client_id, scaled(second.graphic)),
        key_draws(
            run_events(after_command(after_command(s, first), second), later),
            second.client_id,
            second.graphic,
        ),
{
    let s1 = after_command(s, first);
    let s2 = after_command(s1, second);
    let g2 = scaled(second.graphic);
    lemma_command_keeps_well_formed(s, first);
    lemma_command_installs(s, first);
    let e = LiveEntry { client_id: first.client_id, graphic: scaled(first.graphic) };
    let i = choose|i: int| 0 <= i < s1.len() && s1[i] == e;
    assert(has_key(s1[i], second.client_id, second.graphic.id@));
    lemma_find_key_unique(s1, second.client_id, second.graphic.id@, i);
    lemma_command_installs(s1, second);
    if g2.ttl >= 0 {
        lemma_events_countdown(s2, second.client_id, g2, later);
    } else {
        lemma_events_never_expire(s2, second.client_id, g2, later);
    }
}

/// A deletion for a key in use hands back the graphic that stood there,
/// once, and stores the marker in its place; the next tick expires the
/// marker, and from then on, through events that leave the key alone, the
/// key stays empty.
pub proof fn lemma_deletion_removes(s: Seq<LiveEntry>, g: Graphic, c: Command, later: Seq<Event>)
    requires
        well_formed(s),
        holds_only(s, c.client_id, g),
        c.graphic.id@ == g.id@,
        c.graphic.ttl == 0,
        c.graphic.drawable is None,
        spares_key(later, c.client_id, c.graphic.id@),
    ensures
        expired_by_command(s, c) == seq![g],
        holds_only(after_command(s, c), c.client_id, scaled(c.graphic)),
        scaled(c.graphic).drawable is None,
        tick_expired(after_command(s, c)).contains(scaled(c.graphic)),
        absent(tick_survivors(after_command(s, c)), c.client_id, c.graphic.id@),
        tick_count(later) == 0 ==> key_draws(run_events(after_command(s, c), later), c.client_id, c.graphic),
        tick_count(later) > 0 ==> absent(run_events(after_command(s, c), later), c.client_id, c.graphic.id@),
{
    let e = LiveEntry { client_id: c.client_id, graphic: g };
    let i = choose|i: int| 0 <= i < s.len() && s[i] == e;
    lemma_find_key_unique(s, c.client_id, g.id@, i);
    lemma_command_installs(s, c);
    let s1 = after_command(s, c);
    let m = scaled(c.graphic);
    lemma_tick_step(s1, c.client_id, m);
    lemma_events_countdown(s1, c.client_id, m, later);
    assert(with_ttl(m, 0) == m);
}

/// A graphic accepted with a time-to-live of `T >= 0` ticks, followed by
/// events that leave its key alone: while fewer than `T` ticks have passed
/// it stays under its key, counting down; the tick after the `T`-th
/// expires it; and once more than `T` ticks have passed its key is empty.
pub proof fn lemma_finite_ttl_expires(s: Seq<LiveEntry>, c: Command, later: Seq<Event>)
    requires
        well_formed(s),
        scaled(c.graphic).ttl >= 0,
        spares_key(later, c.client_id, c.graphic.id@),
    ensures
        ({
            let s1 = after_command(s, c);
            let g = scaled(c.graphic);
            let n = tick_count(later);
            &&& n <= g.ttl ==> holds_only(run_events(s1, later), c.client_id, with_ttl(g, g.ttl - n))
            &&& n == g.ttl ==> tick_expired(run_events(s1, later)).contains(with_ttl(g, 0))
            &&& n > g.ttl ==> absent(run_events(s1, later), c.client_id, g.id@)
        }),
{
    let s1 = after_command(s, c);
    let g = scaled(c.graphic);
    lemma_command_installs(s, c);
    lemma_events_countdown(s1, c.client_id, g, later);
    if tick_count(later) == g.ttl {
        lemma_tick_step(run_events(s1, later), c.client_id, with_ttl(g, 0));
    }
}

/// A graphic accepted with a negative time-to-live stays under its key,
/// unchanged, through any events that leave its key alone.
pub proof fn lemma_negative_ttl_never_expires(s: Seq<LiveEntry>, c: Command, later: Seq<Event>)
    requires
        well_formed(s),
        c.graphic.ttl < 0,
        spares_key(later, c.client_id, c.graphic.id@),
    ensures
        holds_only(run_events(after_command(s, c), later), c.client_id, scaled(c.graphic)),
{
    lemma_command_installs(s, c);
    lemma_events_never_expire(after_command(s, c), c.client_id, scaled(c.graphic), later);
}

} // verus!
