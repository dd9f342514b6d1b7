//! The per-process registry of guild connections and the command
//! coordination: `connect` (lookup-or-create), `play` (append links and
//! decide whether to load and to start), `skip` and `clear`.

use vstd::prelude::*;

use crate::connection::AdvanceAction;
use crate::connection::CallConnection;
use crate::connection::ConnView;
use crate::connection::PlayAction;
use crate::connection::add_source_t;
use crate::connection::clear_t;
use crate::connection::enqueue_t;
use crate::connection::on_track_end_action;
use crate::connection::on_track_end_t;
use crate::connection::play_next_action;
use crate::connection::play_next_t;
use crate::connection::pop_link_t;
use crate::connection::ResolvedTrack;
use crate::connection::start_decision;
use crate::utils::contains_str;
use crate::utils::has_substring;

verus! {

/// Why a command could not be carried out; each variant is reported to the
/// user and leaves all state unchanged.
#[derive(Clone, Copy, Debug, PartialEq, Eq, Structural)]
pub enum CommandError {
    /// The play command named no resource link.
    NoResourceUrl,
    /// The guild has no connection yet; only `play` creates one.
    NotConnected,
    /// Nothing is playing, so there is nothing to skip.
    NotPlaying,
}

/// What a play command asks for: one resource, or a playlist to expand.
#[derive(Debug)]
pub enum PlayTarget {
    Playlist(String),
    Single(String),
}

/// The decisions a play command takes inside the connection's critical
/// section, for the caller to carry out.
pub struct PlayDecision {
    /// No track is loaded: run the resolver over the queued links.
    pub needs_load: bool,
    /// Nothing was playing when the links were appended: advance.
    pub should_start: bool,
}

/// A link asks for a playlist when it carries a list-query parameter or
/// names a playlist outright.
pub open spec fn is_playlist_link(u: Seq<char>) -> bool {
    has_substring(u, "&list="@) || has_substring(u, "playlist"@)
}

/// The play command's first step: it must name a resource, and the named
/// link decides whether one item or a whole playlist is asked for.
pub fn classify_play_command(cmd: &Vec<String>) -> (r: Result<PlayTarget, CommandError>)
    ensures
        cmd@.len() < 2 ==> (r matches Err(e) && e == CommandError::NoResourceUrl),
        cmd@.len() >= 2 ==> match r {
            Ok(PlayTarget::Playlist(s)) => s@ == cmd@[1]@ && is_playlist_link(cmd@[1]@),
            Ok(PlayTarget::Single(s)) => s@ == cmd@[1]@ && !is_playlist_link(cmd@[1]@),
            Err(_) => false,
        },
{
    if cmd.len() < 2 {
        return Err(CommandError::NoResourceUrl);
    }
    let url = cmd[1].clone();
    if contains_str(url.as_str(), "&list=") || contains_str(url.as_str(), "playlist") {
        Ok(PlayTarget::Playlist(url))
    } else {
        Ok(PlayTarget::Single(url))
    }
}

/// The index of the guild's connection: the first (and, in a well-formed
/// registry, only) entry carrying this guild id.
pub open spec fn find_conn(s: Seq<ConnView>, guild_id: u64) -> Option<int>
    decreases s.len(),
{
    if s.len() == 0 {
        None
    } else if s[0].guild_id == guild_id {
        Some(0int)
    } else {
        match find_conn(s.drop_first(), guild_id) {
            Some(i) => Some(i + 1),
            None => None,
        }
    }
}

/// What `find_conn` finds: a valid index holding the guild id, before which
/// no entry holds it — or a guarantee that no entry holds it at all.
pub proof fn lemma_find_conn(s: Seq<ConnView>, guild_id: u64)
    ensures
        match find_conn(s, guild_id) {
            Some(i) => 0 <= i < s.len() && s[i].guild_id == guild_id && (forall|j: int|
                0 <= j < i ==> s[j].guild_id != guild_id),
            None => forall|j: int| 0 <= j < s.len() ==> s[j].guild_id != guild_id,
        },
    decreases s.len(),
{
    if s.len() > 0 && s[0].guild_id != guild_id {
        lemma_find_conn(s.drop_first(), guild_id);
        match find_conn(s.drop_first(), guild_id) {
            Some(i0) => {
                assert forall|j: int| 0 <= j < i0 + 1 implies s[j].guild_id != guild_id by {
                    if j > 0 {
                        assert(s.drop_first()[j - 1] == s[j]);
                    }
                }
            },
            None => {
                assert forall|j: int| 0 <= j < s.len() implies s[j].guild_id != guild_id by {
                    if j > 0 {
                        assert(s.drop_first()[j - 1] == s[j]);
                    }
                }
            },
        }
    }
}

/// A connection as `connect` creates it on first use.
pub open spec fn fresh_conn(guild_id: u64, callback_channel: u64) -> ConnView {
    ConnView {
        guild_id,
        callback_channel,
        is_playing: false,
        queue: Seq::<Seq<char>>::empty(),
        loaded: Seq::<crate::connection::TrackView>::empty(),
    }
}

/// Lookup-or-create: an existing entry is kept untouched; only a guild
/// without one gets a fresh idle connection appended.
pub open spec fn get_or_create_t(
    s: Seq<ConnView>,
    guild_id: u64,
    callback_channel: u64,
) -> Seq<ConnView> {
    if find_conn(s, guild_id) is Some {
        s
    } else {
        s.push(fresh_conn(guild_id, callback_channel))
    }
}

/// Once a guild has its connection, further lookup-or-create calls leave
/// the registry exactly as it is: every caller sees the same entry.
pub proof fn lemma_get_or_create_idempotent(s: Seq<ConnView>, guild_id: u64, callback_channel: u64)
    ensures
        get_or_create_t(get_or_create_t(s, guild_id, callback_channel), guild_id, callback_channel)
            == get_or_create_t(s, guild_id, callback_channel),
{
    if find_conn(s, guild_id) is None {
        let s1 = s.push(fresh_conn(guild_id, callback_channel));
        lemma_find_conn(s1, guild_id);
        if find_conn(s1, guild_id) is None {
            assert(s1[s.len() as int].guild_id == guild_id);
            assert(false);
        }
    }
}

/// The registry: every guild that ever issued a successful play command
/// has exactly one connection here; entries are added, never removed.
pub struct MusicPlayer {
    pub connections: Vec<CallConnection>,
}

impl View for MusicPlayer {
    type V = Seq<ConnView>;

    open spec fn view(&self) -> Seq<ConnView> {
        self.connections@.map_values(|c: CallConnection| c@)
    }
}

impl MusicPlayer {
    /// No two entries answer for the same guild.
    pub open spec fn wf(self) -> bool {
        forall|i: int, j: int|
            0 <= i < j < self@.len() ==> self@[i].guild_id != self@[j].guild_id
    }

    /// An empty registry.
    pub fn new() -> (p: MusicPlayer)
        ensures
            p@ == Seq::<ConnView>::empty(),
            p.wf(),
    {
        let p = MusicPlayer { connections: Vec::new() };
        proof {
            assert(p@ =~= Seq::<ConnView>::empty());
        }
        p
    }

    /// Where the guild's connection sits, if it has one.
    fn find_index(&self, guild_id: u64) -> (r: Option<usize>)
        ensures
            match r {
                Some(i) => find_conn(self@, guild_id) == Some(i as int),
                None => find_conn(self@, guild_id) is None,
            },
    {
        let mut k: usize = 0;
        while k < self.connections.len()
            invariant
                k <= self.connections.len(),
                self@.len() == self.connections@.len(),
                forall|j: int| 0 <= j < k ==> self@[j].guild_id != guild_id,
            decreases self.connections.len() - k,
        {
            let entry_gid = self.connections[k].guild_id;
            proof {
                assert(self@[k as int] == self.connections@[k as int]@);
            }
            if entry_gid == guild_id {
                proof {
                    lemma_find_conn(self@, guild_id);
                    match find_conn(self@, guild_id) {
                        Some(i) => {
                            if i < k as int {
                                assert(self@[i].guild_id != guild_id);
                                assert(false);
                            }
                            if i > k as int {
                                assert(self@[k as int].guild_id != guild_id);
                                assert(false);
                            }
                        },
                        None => {
                            assert(self@[k as int].guild_id != guild_id);
                            assert(false);
                        },
                    }
                }
                return Some(k);
            }
            k = k + 1;
        }
        proof {
            lemma_find_conn(self@, guild_id);
            match find_conn(self@, guild_id) {
                Some(i) => {
                    assert(self@[i].guild_id != guild_id);
                    assert(false);
                },
                None => {},
            }
        }
        None
    }

    /// Whether the guild already has a connection: `skip` and `clear`
    /// require one and never create one.
    pub fn get(&self, guild_id: u64) -> (r: bool)
        ensures
            r == (find_conn(self@, guild_id) is Some),
    {
        self.find_index(guild_id).is_some()
    }

    /// After a successful voice join: look the guild's connection up, or
    /// create it on first use. An existing entry keeps its queue and its
    /// playing flag untouched (only the engine session, which lives with
    /// the caller, is replaced).
    pub fn connect(&mut self, guild_id: u64, callback_channel: u64)
        requires
            old(self).wf(),
        ensures
            final(self).wf(),
            final(self)@ == get_or_create_t(old(self)@, guild_id, callback_channel),
    {
        let idx = self.find_index(guild_id);
        match idx {
            Some(_) => {},
            None => {
                proof {
                    lemma_find_conn(self@, guild_id);
                }
                self.connections.push(CallConnection::new(guild_id, callback_channel));
                proof {
                    assert(self@ =~= old(self)@.push(fresh_conn(guild_id, callback_channel)));
                    assert forall|i: int, j: int| 0 <= i < j < self@.len() implies self@[i].guild_id
                        != self@[j].guild_id by {
                        if j == self@.len() - 1 {
                            assert(old(self)@[i].guild_id != guild_id);
                        }
                    }
                }
            },
        }
    }

    /// The play command's critical section: append the links to the
    /// guild's queue and read, under the same exclusive access, whether a
    /// track must be loaded and whether playback must be started. Exactly
    /// the caller that sees `should_start` advances the connection.
    pub fn play(&mut self, guild_id: u64, urls: Vec<String>) -> (r: PlayDecision)
        requires
            old(self).wf(),
            find_conn(old(self)@, guild_id) is Some,
        ensures
            final(self).wf(),
            match find_conn(old(self)@, guild_id) {
                Some(i) => {
                    &&& final(self)@ == old(self)@.update(
                        i,
                        enqueue_t(old(self)@[i], urls.deep_view()),
                    )
                    &&& r.needs_load == (old(self)@[i].loaded.len() == 0)
                    &&& r.should_start == start_decision(old(self)@[i])
                },
                None => false,
            },
    {
        let i = self.find_index(guild_id).unwrap();
        proof {
            lemma_find_conn(self@, guild_id);
        }
        let mut c = self.connections.remove(i);
        proof {
            assert(c@ == old(self)@[i as int]);
        }
        c.enqueue_links(urls);
        let needs_load = c.current_tracks.len() == 0;
        let should_start = !c.is_playing;
        self.connections.insert(i, c);
        proof {
            assert(self.connections@ =~= old(self).connections@.update(
                i as int,
                self.connections@[i as int],
            ));
            assert(self@ =~= old(self)@.update(
                i as int,
                enqueue_t(old(self)@[i as int], urls.deep_view()),
            ));
            assert forall|a: int, b: int| 0 <= a < b < self@.len() implies self@[a].guild_id
                != self@[b].guild_id by {
                assert(old(self)@[a].guild_id != old(self)@[b].guild_id);
            }
        }
        PlayDecision { needs_load, should_start }
    }

    /// The skip command: absent connection and idle connection are
    /// reported and leave everything unchanged; otherwise the current
    /// track is abandoned exactly as if it had ended.
    pub fn skip(&mut self, guild_id: u64) -> (r: Result<PlayAction, CommandError>)
        requires
            old(self).wf(),
        ensures
            final(self).wf(),
            match find_conn(old(self)@, guild_id) {
                None => r matches Err(CommandError::NotConnected) && final(self)@ == old(self)@,
                Some(i) => if !old(self)@[i].is_playing {
                    r matches Err(CommandError::NotPlaying) && final(self)@ == old(self)@
                } else {
                    &&& final(self)@ == old(self)@.update(i, on_track_end_t(old(self)@[i]))
                    &&& match on_track_end_action(old(self)@[i]) {
                        AdvanceAction::Start(t) => r matches Ok(PlayAction::PlayTrack(tr)) && tr@
                            == t,
                        AdvanceAction::LoadFirst => r matches Ok(PlayAction::LoadNeeded),
                        AdvanceAction::Stop => r matches Ok(PlayAction::StopPlayback),
                    }
                },
            },
    {
        let idx = self.find_index(guild_id);
        match idx {
            None => Err(CommandError::NotConnected),
            Some(i) => {
                proof {
                    lemma_find_conn(self@, guild_id);
                }
                let mut c = self.connections.remove(i);
                proof {
                    assert(c@ == old(self)@[i as int]);
                }
                if !c.is_playing {
                    self.connections.insert(i, c);
                    proof {
                        assert(self.connections@ =~= old(self).connections@);
                        assert(self@ =~= old(self)@);
                    }
                    Err(CommandError::NotPlaying)
                } else {
                    let action = c.on_track_end();
                    self.connections.insert(i, c);
                    proof {
                        assert(self.connections@ =~= old(self).connections@.update(
                            i as int,
                            self.connections@[i as int],
                        ));
                        assert(self@ =~= old(self)@.update(
                            i as int,
                            on_track_end_t(old(self)@[i as int]),
                        ));
                        assert forall|a: int, b: int| 0 <= a < b < self@.len() implies self@[a].guild_id != self@[b].guild_id by {
                            assert(old(self)@[a].guild_id != old(self)@[b].guild_id);
                        }
                    }
                    Ok(action)
                }
            },
        }
    }

    /// The end-of-track notification for a guild, delivered through the
    /// registry exactly like a command. A guild without a connection means
    /// a stale notification: it is dropped and nothing changes.
    pub fn on_track_end(&mut self, guild_id: u64) -> (r: Option<PlayAction>)
        requires
            old(self).wf(),
        ensures
            final(self).wf(),
            match find_conn(old(self)@, guild_id) {
                None => r is None && final(self)@ == old(self)@,
                Some(i) => {
                    &&& final(self)@ == old(self)@.update(i, on_track_end_t(old(self)@[i]))
                    &&& match on_track_end_action(old(self)@[i]) {
                        AdvanceAction::Start(t) => r matches Some(PlayAction::PlayTrack(tr)) && tr@
                            == t,
                        AdvanceAction::LoadFirst => r matches Some(PlayAction::LoadNeeded),
                        AdvanceAction::Stop => r matches Some(PlayAction::StopPlayback),
                    }
                },
            },
    {
        let idx = self.find_index(guild_id);
        match idx {
            None => None,
            Some(i) => {
                proof {
                    lemma_find_conn(self@, guild_id);
                }
                let mut c = self.connections.remove(i);
                proof {
                    assert(c@ == old(self)@[i as int]);
                }
                let action = c.on_track_end();
                self.connections.insert(i, c);
                proof {
                    assert(self.connections@ =~= old(self).connections@.update(
                        i as int,
                        self.connections@[i as int],
                    ));
                    assert(self@ =~= old(self)@.update(
                        i as int,
                        on_track_end_t(old(self)@[i as int]),
                    ));
                    assert forall|a: int, b: int| 0 <= a < b < self@.len() implies self@[a].guild_id != self@[b].guild_id by {
                        assert(old(self)@[a].guild_id != old(self)@[b].guild_id);
                    }
                }
                Some(action)
            },
        }
    }

    /// Advance a guild's connection, through the registry.
    pub fn play_next_song(&mut self, guild_id: u64) -> (r: Option<PlayAction>)
        requires
            old(self).wf(),
        ensures
            final(self).wf(),
            match find_conn(old(self)@, guild_id) {
                None => r is None && final(self)@ == old(self)@,
                Some(i) => {
                    &&& final(self)@ == old(self)@.update(i, play_next_t(old(self)@[i]))
                    &&& match play_next_action(old(self)@[i]) {
                        AdvanceAction::Start(t) => r matches Some(PlayAction::PlayTrack(tr)) && tr@
                            == t,
                        AdvanceAction::LoadFirst => r matches Some(PlayAction::LoadNeeded),
                        AdvanceAction::Stop => r matches Some(PlayAction::StopPlayback),
                    }
                },
            },
    {
        let idx = self.find_index(guild_id);
        match idx {
            None => None,
            Some(i) => {
                proof {
                    lemma_find_conn(self@, guild_id);
                }
                let mut c = self.connections.remove(i);
                proof {
                    assert(c@ == old(self)@[i as int]);
                }
                let action = c.play_next_song();
                self.connections.insert(i, c);
                proof {
                    assert(self.connections@ =~= old(self).connections@.update(
                        i as int,
                        self.connections@[i as int],
                    ));
                    assert(self@ =~= old(self)@.update(
                        i as int,
                        play_next_t(old(self)@[i as int]),
                    ));
                    assert forall|a: int, b: int| 0 <= a < b < self@.len() implies self@[a].guild_id != self@[b].guild_id by {
                        assert(old(self)@[a].guild_id != old(self)@[b].guild_id);
                    }
                }
                Some(action)
            },
        }
    }

    /// Hand out a guild's next queued link for the caller's resolver, or
    /// nothing when the guild has no connection or no link waits.
    pub fn load_next_track(&mut self, guild_id: u64) -> (r: Option<String>)
        requires
            old(self).wf(),
        ensures
            final(self).wf(),
            match find_conn(old(self)@, guild_id) {
                None => r is None && final(self)@ == old(self)@,
                Some(i) => {
                    &&& old(self)@[i].queue.len() == 0 ==> r is None && final(self)@ == old(self)@
                    &&& old(self)@[i].queue.len() > 0 ==> (r matches Some(u) && u@ == old(
                        self,
                    )@[i].queue[0]) && final(self)@ == old(self)@.update(
                        i,
                        pop_link_t(old(self)@[i]),
                    )
                },
            },
    {
        let idx = self.find_index(guild_id);
        match idx {
            None => None,
            Some(i) => {
                proof {
                    lemma_find_conn(self@, guild_id);
                }
                let mut c = self.connections.remove(i);
                proof {
                    assert(c@ == old(self)@[i as int]);
                }
                let url = c.load_next_track();
                self.connections.insert(i, c);
                proof {
                    assert(self.connections@ =~= old(self).connections@.update(
                        i as int,
                        self.connections@[i as int],
                    ));
                    if old(self)@[i as int].queue.len() == 0 {
                        assert(self@ =~= old(self)@);
                    } else {
                        assert(self@ =~= old(self)@.update(
                            i as int,
                            pop_link_t(old(self)@[i as int]),
                        ));
                    }
                    assert forall|a: int, b: int| 0 <= a < b < self@.len() implies self@[a].guild_id != self@[b].guild_id by {
                        assert(old(self)@[a].guild_id != old(self)@[b].guild_id);
                    }
                }
                url
            },
        }
    }

    /// A resolved track joins a guild's loaded queue, through the
    /// registry; reports whether the guild had a connection to take it.
    pub fn add_source(&mut self, guild_id: u64, track: ResolvedTrack) -> (r: bool)
        requires
            old(self).wf(),
        ensures
            final(self).wf(),
            match find_conn(old(self)@, guild_id) {
                None => !r && final(self)@ == old(self)@,
                Some(i) => r && final(self)@ == old(self)@.update(
                    i,
                    add_source_t(old(self)@[i], track@),
                ),
            },
    {
        let idx = self.find_index(guild_id);
        match idx {
            None => false,
            Some(i) => {
                proof {
                    lemma_find_conn(self@, guild_id);
                }
                let mut c = self.connections.remove(i);
                proof {
                    assert(c@ == old(self)@[i as int]);
                }
                c.add_source(track);
                self.connections.insert(i, c);
                proof {
                    assert(self.connections@ =~= old(self).connections@.update(
                        i as int,
                        self.connections@[i as int],
                    ));
                    assert(self@ =~= old(self)@.update(
                        i as int,
                        add_source_t(old(self)@[i as int], track@),
                    ));
                    assert forall|a: int, b: int| 0 <= a < b < self@.len() implies self@[a].guild_id != self@[b].guild_id by {
                        assert(old(self)@[a].guild_id != old(self)@[b].guild_id);
                    }
                }
                true
            },
        }
    }

    /// Where a guild's replies go, if it has a connection.
    pub fn callback_channel(&self, guild_id: u64) -> (r: Option<u64>)
        ensures
            match find_conn(self@, guild_id) {
                None => r is None,
                Some(i) => r == Some(self@[i].callback_channel),
            },
    {
        let idx = self.find_index(guild_id);
        match idx {
            None => None,
            Some(i) => {
                proof {
                    lemma_find_conn(self@, guild_id);
                    assert(self@[i as int] == self.connections@[i as int]@);
                }
                Some(self.connections[i].callback_channel)
            },
        }
    }

    /// The clear command: with a connection present it always succeeds,
    /// whatever the playing state, and settles the connection idle with
    /// empty queues; without one it reports `NotConnected`.
    pub fn clear(&mut self, guild_id: u64) -> (r: Result<(), CommandError>)
        requires
            old(self).wf(),
        ensures
            final(self).wf(),
            match find_conn(old(self)@, guild_id) {
                None => r matches Err(CommandError::NotConnected) && final(self)@ == old(self)@,
                Some(i) => r is Ok && final(self)@ == old(self)@.update(
                    i,
                    clear_t(old(self)@[i]),
                ),
            },
    {
        let idx = self.find_index(guild_id);
        match idx {
            None => Err(CommandError::NotConnected),
            Some(i) => {
                proof {
                    lemma_find_conn(self@, guild_id);
                }
                let mut c = self.connections.remove(i);
                proof {
                    assert(c@ == old(self)@[i as int]);
                }
                c.clear();
                self.connections.insert(i, c);
                proof {
                    assert(self.connections@ =~= old(self).connections@.update(
                        i as int,
                        self.connections@[i as int],
                    ));
                    assert(self@ =~= old(self)@.update(i as int, clear_t(old(self)@[i as int])));
                    assert forall|a: int, b: int| 0 <= a < b < self@.len() implies self@[a].guild_id != self@[b].guild_id by {
                        assert(old(self)@[a].guild_id != old(self)@[b].guild_id);
                    }
                }
                Ok(())
            },
        }
    }
}

} // verus!
