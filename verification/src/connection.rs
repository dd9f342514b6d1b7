//! One guild's playback state: the link queue, the resolved tracks waiting
//! to play, and the playing flag, together with the state-machine
//! transitions that the commands and the end-of-track notification perform.

use std::collections::VecDeque;
use vstd::prelude::*;
use vstd::string::StringExecFns;

verus! {

/// A track the resolver produced: its display title, as the resolver
/// reported it, and the handle under which the playback engine knows the
/// playable source.
pub struct ResolvedTrack {
    pub title: Option<String>,
    pub handle: u64,
}

/// Mathematical model of a resolved track.
#[verifier::ext_equal]
pub struct TrackView {
    pub title: Option<Seq<char>>,
    pub handle: u64,
}

impl View for ResolvedTrack {
    type V = TrackView;

    open spec fn view(&self) -> TrackView {
        TrackView {
            title: match self.title {
                Option::Some(t) => Option::Some(t@),
                Option::None => Option::None,
            },
            handle: self.handle,
        }
    }
}

/// Mathematical model of one guild's connection.
#[verifier::ext_equal]
pub struct ConnView {
    pub guild_id: u64,
    pub callback_channel: u64,
    pub is_playing: bool,
    pub queue: Seq<Seq<char>>,
    pub loaded: Seq<TrackView>,
}

/// Per-guild aggregate: the pending links (FIFO), the tracks already
/// resolved and waiting to be handed to the engine (FIFO), and whether the
/// engine is currently rendering a track. The data model is lean: the
/// primary queue holds unresolved links, and `current_tracks` holds what
/// the driver has resolved ahead of playback — a driver that loads one
/// link per advance keeps it to at most one track (`lemma_lean_model`);
/// the state machine itself does not depend on that bound.
pub struct CallConnection {
    pub guild_id: u64,
    pub callback_channel: u64,
    pub is_playing: bool,
    pub queue_links: VecDeque<String>,
    pub current_tracks: VecDeque<ResolvedTrack>,
}

impl View for CallConnection {
    type V = ConnView;

    open spec fn view(&self) -> ConnView {
        ConnView {
            guild_id: self.guild_id,
            callback_channel: self.callback_channel,
            is_playing: self.is_playing,
            queue: self.queue_links@.map_values(|s: String| s@),
            loaded: self.current_tracks@.map_values(|t: ResolvedTrack| t@),
        }
    }
}

/// What the caller must do with the playback engine after a transition.
pub enum PlayAction {
    /// Hand this track to the engine (`play_only`) and announce its title.
    PlayTrack(ResolvedTrack),
    /// Nothing is loaded, but links wait in the queue: run them through
    /// the resolver (`load_next_track` / `add_source`) and advance again.
    /// Stopping here would abandon the pending links.
    LoadNeeded,
    /// Stop the engine session: nothing is loaded and nothing is queued.
    StopPlayback,
}

/// What an advance asks of the driver, at the model level.
pub enum AdvanceAction {
    /// Start this track on the engine.
    Start(TrackView),
    /// Resolve a pending link first, then advance again.
    LoadFirst,
    /// Nothing remains anywhere: stop the engine.
    Stop,
}

/// Appending links to the queue tail; nothing else changes.
pub open spec fn enqueue_t(v: ConnView, urls: Seq<Seq<char>>) -> ConnView {
    ConnView { queue: v.queue + urls, ..v }
}

/// Taking the queue head out to hand it to the resolver.
pub open spec fn pop_link_t(v: ConnView) -> ConnView {
    ConnView { queue: v.queue.drop_first(), ..v }
}

/// A successfully resolved track joins the loaded queue.
pub open spec fn add_source_t(v: ConnView, t: TrackView) -> ConnView {
    ConnView { loaded: v.loaded.push(t), ..v }
}

/// Advancing: the loaded head starts playing; with nothing loaded but
/// links still queued, the state is left for the driver to resolve a link
/// and advance again; playback stops only when nothing remains at all.
pub open spec fn play_next_t(v: ConnView) -> ConnView {
    if v.loaded.len() > 0 {
        ConnView { is_playing: true, loaded: v.loaded.drop_first(), ..v }
    } else if v.queue.len() > 0 {
        v
    } else {
        ConnView { is_playing: false, ..v }
    }
}

/// What advancing asks for: the loaded head, a load of the pending
/// queue, or — only with both queues empty — a stop.
pub open spec fn play_next_action(v: ConnView) -> AdvanceAction {
    if v.loaded.len() > 0 {
        AdvanceAction::Start(v.loaded[0])
    } else if v.queue.len() > 0 {
        AdvanceAction::LoadFirst
    } else {
        AdvanceAction::Stop
    }
}

/// The end-of-track notification clears the playing flag and advances.
pub open spec fn on_track_end_t(v: ConnView) -> ConnView {
    play_next_t(ConnView { is_playing: false, ..v })
}

/// What an end-of-track notification asks the driver to do next.
pub open spec fn on_track_end_action(v: ConnView) -> AdvanceAction {
    play_next_action(ConnView { is_playing: false, ..v })
}

/// The title as announced: the resolver's title, or a placeholder when it
/// reported none.
pub open spec fn announced_title(t: TrackView) -> Seq<char> {
    match t.title {
        Option::Some(s) => s,
        Option::None => "an unknown track"@,
    }
}

/// Clearing empties both queues and stops playback.
pub open spec fn clear_t(v: ConnView) -> ConnView {
    ConnView {
        is_playing: false,
        queue: Seq::<Seq<char>>::empty(),
        loaded: Seq::<TrackView>::empty(),
        ..v
    }
}

/// A play command triggers the advance exactly when nothing was playing at
/// the moment its links were appended.
pub open spec fn start_decision(v: ConnView) -> bool {
    !v.is_playing
}

impl CallConnection {
    /// A fresh connection: idle, with empty queues.
    pub fn new(guild_id: u64, callback_channel: u64) -> (c: CallConnection)
        ensures
            c@ == (ConnView {
                guild_id,
                callback_channel,
                is_playing: false,
                queue: Seq::<Seq<char>>::empty(),
                loaded: Seq::<TrackView>::empty(),
            }),
    {
        let c = CallConnection {
            guild_id,
            callback_channel,
            is_playing: false,
            queue_links: VecDeque::new(),
            current_tracks: VecDeque::new(),
        };
        proof {
            assert(c@ =~= ConnView {
                guild_id,
                callback_channel,
                is_playing: false,
                queue: Seq::<Seq<char>>::empty(),
                loaded: Seq::<TrackView>::empty(),
            });
        }
        c
    }

    /// Append the given links to the queue tail, in order.
    pub fn enqueue_links(&mut self, urls: Vec<String>)
        ensures
            final(self)@ == enqueue_t(old(self)@, urls.deep_view()),
    {
        proof {
            assert(old(self).queue_links@ + urls@.subrange(0, 0) =~= old(self).queue_links@);
        }
        let mut i: usize = 0;
        while i < urls.len()
            invariant
                i <= urls.len(),
                self.guild_id == old(self).guild_id,
                self.callback_channel == old(self).callback_channel,
                self.is_playing == old(self).is_playing,
                self.current_tracks@ == old(self).current_tracks@,
                self.queue_links@ == old(self).queue_links@ + urls@.subrange(0, i as int),
            decreases urls.len() - i,
        {
            self.queue_links.push_back(urls[i].clone());
            proof {
                assert(self.queue_links@ =~= old(self).queue_links@ + urls@.subrange(
                    0,
                    i as int + 1,
                ));
            }
            i = i + 1;
        }
        proof {
            assert(urls@.subrange(0, urls@.len() as int) =~= urls@);
            assert(self@.queue =~= enqueue_t(old(self)@, urls.deep_view()).queue);
            assert(self@ =~= enqueue_t(old(self)@, urls.deep_view()));
        }
    }

    /// Hand out the next queued link so the caller can run it through the
    /// resolver; the link leaves the queue. A failed resolution is simply
    /// dropped: the caller asks again for the next link.
    pub fn load_next_track(&mut self) -> (r: Option<String>)
        ensures
            old(self)@.queue.len() == 0 ==> r is None && final(self)@ == old(self)@,
            old(self)@.queue.len() > 0 ==> {
                &&& r matches Some(u) && u@ == old(self)@.queue[0]
                &&& final(self)@ == pop_link_t(old(self)@)
            },
    {
        let r = self.queue_links.pop_front();
        proof {
            if old(self)@.queue.len() == 0 {
                assert(self@ =~= old(self)@);
            } else {
                assert(self@.queue =~= pop_link_t(old(self)@).queue);
                assert(self@ =~= pop_link_t(old(self)@));
            }
        }
        r
    }

    /// A resolved track joins the loaded queue.
    pub fn add_source(&mut self, track: ResolvedTrack)
        ensures
            final(self)@ == add_source_t(old(self)@, track@),
    {
        self.current_tracks.push_back(track);
        proof {
            assert(self@.loaded =~= add_source_t(old(self)@, track@).loaded);
            assert(self@ =~= add_source_t(old(self)@, track@));
        }
    }

    /// Advance: take the loaded head and mark the connection playing.
    /// With nothing loaded but links still queued, ask the caller to
    /// resolve one and advance again — the queue is never abandoned. Only
    /// with both queues empty does playback stop. The caller performs the
    /// returned engine action.
    pub fn play_next_song(&mut self) -> (r: PlayAction)
        ensures
            final(self)@ == play_next_t(old(self)@),
            match play_next_action(old(self)@) {
                AdvanceAction::Start(t) => (r matches PlayAction::PlayTrack(tr) && tr@ == t)
                    && final(self)@.is_playing,
                AdvanceAction::LoadFirst => r is LoadNeeded && final(self)@ == old(self)@,
                AdvanceAction::Stop => r is StopPlayback && !final(self)@.is_playing,
            },
            r is StopPlayback ==> old(self)@.loaded.len() == 0 && old(self)@.queue.len() == 0,
    {
        let next = self.current_tracks.pop_front();
        match next {
            Some(track) => {
                self.is_playing = true;
                proof {
                    assert(self@.loaded =~= play_next_t(old(self)@).loaded);
                    assert(self@ =~= play_next_t(old(self)@));
                }
                PlayAction::PlayTrack(track)
            },
            None => {
                if self.queue_links.len() > 0 {
                    proof {
                        assert(self@ =~= old(self)@);
                    }
                    PlayAction::LoadNeeded
                } else {
                    self.is_playing = false;
                    proof {
                        assert(self@ =~= play_next_t(old(self)@));
                    }
                    PlayAction::StopPlayback
                }
            },
        }
    }

    /// End-of-track notification: the playing flag falls, then the
    /// connection advances. Whatever the state, the outcome is consistent:
    /// with nothing pending at all the engine is stopped and the
    /// connection idle; with a loaded track its head becomes the active
    /// track; with only unresolved links left, the driver is told to load
    /// and advance again rather than stall.
    pub fn on_track_end(&mut self) -> (r: PlayAction)
        ensures
            final(self)@ == on_track_end_t(old(self)@),
            old(self)@.loaded.len() > 0 ==> final(self)@.is_playing && (r matches
                PlayAction::PlayTrack(t) && t@ == old(self)@.loaded[0]),
            old(self)@.loaded.len() == 0 && old(self)@.queue.len() > 0 ==> r is LoadNeeded
                && !final(self)@.is_playing && final(self)@.queue == old(self)@.queue
                && final(self)@.loaded == old(self)@.loaded,
            old(self)@.loaded.len() == 0 && old(self)@.queue.len() == 0
                ==> !final(self)@.is_playing && r is StopPlayback,
            r is StopPlayback ==> old(self)@.loaded.len() == 0 && old(self)@.queue.len() == 0,
    {
        self.is_playing = false;
        self.play_next_song()
    }

    /// Empty both queues and stop playback.
    pub fn clear(&mut self)
        ensures
            final(self)@ == clear_t(old(self)@),
    {
        self.queue_links.clear();
        self.current_tracks.clear();
        self.is_playing = false;
        proof {
            assert(self@ =~= clear_t(old(self)@));
        }
    }

    /// The user-visible announcement for a track that starts playing. A
    /// track whose resolver metadata carried no title is announced with a
    /// placeholder: a missing title must not fail the playback action.
    pub fn now_playing_message(track: &ResolvedTrack) -> (r: String)
        ensures
            r@ == "Now playing: "@ + announced_title(track@),
    {
        let mut m = String::from_str("Now playing: ");
        match &track.title {
            Some(t) => m.append(t.as_str()),
            None => m.append("an unknown track"),
        }
        m
    }
}

/// Exactly one advance per idle observation: a play command that appends
/// links to an idle connection must trigger the advance, and once that
/// advance has started a loaded track, a later play command's appended
/// links do not trigger a second one. `w` is the connection as the first
/// command's load step left it: loading touches only the queues, never the
/// playing flag.
pub proof fn lemma_single_start(
    v: ConnView,
    urls1: Seq<Seq<char>>,
    w: ConnView,
    urls2: Seq<Seq<char>>,
)
    requires
        !v.is_playing,
        w.loaded.len() > 0,
        w.is_playing == enqueue_t(v, urls1).is_playing,
    ensures
        start_decision(enqueue_t(v, urls1)),
        play_next_t(w).is_playing,
        !start_decision(enqueue_t(play_next_t(w), urls2)),
{
}

/// Clearing settles the connection — empty queues, idle, engine stopped —
/// and clearing twice is the same as clearing once.
pub proof fn lemma_clear_idempotent(v: ConnView)
    ensures
        clear_t(v).queue.len() == 0,
        clear_t(v).loaded.len() == 0,
        !clear_t(v).is_playing,
        clear_t(clear_t(v)) == clear_t(v),
{
}

/// Tracks loaded in order play in order: from an idle connection holding
/// loaded tracks `a`, `b`, `c` and no pending links, the advance starts
/// `a`, and each end-of-track notification starts the next one, until the
/// last notification stops the engine.
pub proof fn lemma_fifo_order(v: ConnView, a: TrackView, b: TrackView, c: TrackView)
    requires
        !v.is_playing,
        v.loaded.len() == 0,
        v.queue.len() == 0,
    ensures
        ({
            let v0 = add_source_t(add_source_t(add_source_t(v, a), b), c);
            let v1 = play_next_t(v0);
            let v2 = on_track_end_t(v1);
            let v3 = on_track_end_t(v2);
            let v4 = on_track_end_t(v3);
            &&& play_next_action(v0) == AdvanceAction::Start(a)
            &&& on_track_end_action(v1) == AdvanceAction::Start(b)
            &&& on_track_end_action(v2) == AdvanceAction::Start(c)
            &&& on_track_end_action(v3) == AdvanceAction::Stop
            &&& !v4.is_playing && v4.loaded.len() == 0
        }),
{
    let v0 = add_source_t(add_source_t(add_source_t(v, a), b), c);
    assert(v0.loaded =~= seq![a, b, c]);
    let v1 = play_next_t(v0);
    assert(v1.loaded =~= seq![b, c]);
    let v2 = on_track_end_t(v1);
    assert(v2.loaded =~= seq![c]);
    let v3 = on_track_end_t(v2);
    assert(v3.loaded =~= Seq::<TrackView>::empty());
}

/// The advance never abandons pending links: a stop is decided only when
/// nothing is loaded and nothing is queued, and the load request leaves
/// the state untouched for the driver to resolve a link and advance
/// again.
pub proof fn lemma_no_stall(v: ConnView)
    ensures
        play_next_action(v) is Stop ==> v.loaded.len() == 0 && v.queue.len() == 0,
        play_next_action(v) is LoadFirst ==> play_next_t(v) == v && v.queue.len() > 0,
        on_track_end_action(v) is Stop ==> v.loaded.len() == 0 && v.queue.len() == 0,
{
}

/// The lean queue model: pending links wait unresolved in the link queue,
/// and a driver that resolves at most one link per advance holds at most
/// one resolved track at a time — every transition preserves that bound.
pub proof fn lemma_lean_model(v: ConnView, t: TrackView, urls: Seq<Seq<char>>)
    requires
        v.loaded.len() <= 1,
    ensures
        add_source_t(play_next_t(v), t).loaded.len() <= 1,
        on_track_end_t(v).loaded.len() <= 1,
        enqueue_t(v, urls).loaded.len() <= 1,
        pop_link_t(v).loaded.len() <= 1,
        clear_t(v).loaded.len() == 0,
        v.loaded.len() == 0 ==> add_source_t(v, t).loaded.len() == 1,
{
}

} // verus!
