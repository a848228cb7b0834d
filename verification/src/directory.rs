//! The claim of a cache directory: one that holds anything else is left alone.
use crate::error::{ErrorKind, ProxyError};
use crate::keys::{
    check_marker, claims_entry, is_cache_name, is_hex, is_shard, marker_bytes,
    unowned_cache_directory,
};
use crate::text::opt_text;
use vstd::prelude::*;
use vstd::string::*;

verus! {

/// What a claim is looking at.
#[derive(Debug)]
pub enum ClaimStage {
    /// The marker.
    Marker,
    /// The entries of the directory.
    Root,
    /// The entries of a shard.
    Shard(String),
    /// Nothing any more.
    Over,
}

/// What a claim has found. Names that are no text are `None`.
#[derive(Debug)]
pub enum ClaimEvent {
    /// What the marker holds, where there is one.
    Marker(Option<Vec<u8>>),
    /// An entry of the directory: its name and whether it is a directory.
    RootEntry(Option<String>, bool),
    /// There are no more entries of the directory.
    RootEnd,
    /// An entry of the shard: its name and whether it is a file.
    ShardEntry(Option<String>, bool),
    /// There are no more entries of the shard.
    ShardEnd,
}

/// What a claim does next.
#[derive(Debug)]
pub enum ClaimAction {
    /// The directory is claimed already.
    Keep,
    /// Look at the next entry of the directory.
    ReadRoot,
    /// Look at the next entry of the shard.
    ReadShard,
    /// Write the marker: the directory is claimed.
    WriteMarker,
    /// Leave the directory alone.
    Refuse(ProxyError),
}

/// The model of what a claim is looking at.
pub enum StageView {
    Marker,
    Root,
    Shard(Seq<char>),
    Over,
}

/// The model of what a claim has found.
pub enum FoundView {
    Marker(Option<Seq<u8>>),
    RootEntry(Option<Seq<char>>, bool),
    RootEnd,
    ShardEntry(Option<Seq<char>>, bool),
    ShardEnd,
}

/// The model of what a claim does next.
pub enum ClaimActionView {
    Keep,
    ReadRoot,
    ReadShard,
    WriteMarker,
    Refuse(ErrorKind, Seq<char>),
}

impl View for ClaimStage {
    type V = StageView;

    open spec fn view(&self) -> StageView {
        match self {
            ClaimStage::Marker => StageView::Marker,
            ClaimStage::Root => StageView::Root,
            ClaimStage::Shard(name) => StageView::Shard(name@),
            ClaimStage::Over => StageView::Over,
        }
    }
}

impl View for ClaimEvent {
    type V = FoundView;

    open spec fn view(&self) -> FoundView {
        match self {
            ClaimEvent::Marker(contents) => FoundView::Marker(
                match contents {
                    Some(c) => Some(c@),
                    None => None,
                },
            ),
            ClaimEvent::RootEntry(name, is_dir) => FoundView::RootEntry(opt_text(*name), *is_dir),
            ClaimEvent::RootEnd => FoundView::RootEnd,
            ClaimEvent::ShardEntry(name, is_file) => FoundView::ShardEntry(
                opt_text(*name),
                *is_file,
            ),
            ClaimEvent::ShardEnd => FoundView::ShardEnd,
        }
    }
}

impl View for ClaimAction {
    type V = ClaimActionView;

    open spec fn view(&self) -> ClaimActionView {
        match self {
            ClaimAction::Keep => ClaimActionView::Keep,
            ClaimAction::ReadRoot => ClaimActionView::ReadRoot,
            ClaimAction::ReadShard => ClaimActionView::ReadShard,
            ClaimAction::WriteMarker => ClaimActionView::WriteMarker,
            ClaimAction::Refuse(error) => ClaimActionView::Refuse(error.kind, error.message@),
        }
    }
}

impl StageView {
    /// The claim waits for such a find.
    pub open spec fn awaits(self, found: FoundView) -> bool {
        match found {
            FoundView::Marker(_) => self is Marker,
            FoundView::RootEntry(_, _) => self is Root,
            FoundView::RootEnd => self is Root,
            FoundView::ShardEntry(_, _) => self is Shard,
            FoundView::ShardEnd => self is Shard,
        }
    }

    /// The find is what a directory of this cache holds.
    pub open spec fn is_own(self, found: FoundView) -> bool {
        match found {
            FoundView::Marker(contents) => contents matches Some(c) ==> c == marker_bytes(),
            FoundView::RootEntry(name, is_dir) => is_dir && (name matches Some(n) && is_hex(n, 2)),
            FoundView::ShardEntry(name, is_file) => is_file && (name matches Some(n)
                && is_cache_name(n, self->Shard_0)),
            _ => true,
        }
    }

    /// The stage and the action that a find leads to.
    pub open spec fn after(self, found: FoundView) -> (StageView, ClaimActionView) {
        if !self.is_own(found) {
            (
                StageView::Over,
                ClaimActionView::Refuse(
                    ErrorKind::InvalidInput,
                    "cache directory is nonempty and not owned by vampire"@,
                ),
            )
        } else {
            match found {
                FoundView::Marker(Some(_)) => (StageView::Over, ClaimActionView::Keep),
                FoundView::Marker(None) => (StageView::Root, ClaimActionView::ReadRoot),
                FoundView::RootEntry(name, _) => (
                    StageView::Shard(name->0),
                    ClaimActionView::ReadShard,
                ),
                FoundView::RootEnd => (StageView::Over, ClaimActionView::WriteMarker),
                FoundView::ShardEntry(_, _) => (self, ClaimActionView::ReadShard),
                FoundView::ShardEnd => (StageView::Root, ClaimActionView::ReadRoot),
            }
        }
    }
}

fn borrowed(name: &Option<String>) -> (r: Option<&str>)
    ensures
        crate::text::opt_str(r) == opt_text(*name),
{
    match name {
        Some(n) => Some(n.as_str()),
        None => None,
    }
}

impl ClaimStage {
    /// Tells whether the claim waits for such a find.
    pub fn awaits(&self, event: &ClaimEvent) -> (r: bool)
        ensures
            r == self@.awaits(event@),
    {
        match event {
            ClaimEvent::Marker(_) => matches!(self, ClaimStage::Marker),
            ClaimEvent::RootEntry(_, _) => matches!(self, ClaimStage::Root),
            ClaimEvent::RootEnd => matches!(self, ClaimStage::Root),
            ClaimEvent::ShardEntry(_, _) => matches!(self, ClaimStage::Shard(_)),
            ClaimEvent::ShardEnd => matches!(self, ClaimStage::Shard(_)),
        }
    }

    /// Takes note of a find and says what is done next.
    pub fn step(&mut self, event: ClaimEvent) -> (r: ClaimAction)
        requires
            old(self)@.awaits(event@),
        ensures
            final(self)@ == old(self)@.after(event@).0,
            r@ == old(self)@.after(event@).1,
    {
        match event {
            ClaimEvent::Marker(contents) => {
                let checked = match &contents {
                    Some(c) => check_marker(Some(c.as_slice())),
                    None => check_marker(None),
                };
                match checked {
                    Ok(true) => {
                        *self = ClaimStage::Over;
                        ClaimAction::Keep
                    },
                    Ok(false) => {
                        *self = ClaimStage::Root;
                        ClaimAction::ReadRoot
                    },
                    Err(error) => {
                        *self = ClaimStage::Over;
                        ClaimAction::Refuse(error)
                    },
                }
            },
            ClaimEvent::RootEntry(name, is_dir) => {
                if !is_shard(borrowed(&name), is_dir) {
                    *self = ClaimStage::Over;
                    return ClaimAction::Refuse(unowned_cache_directory());
                }
                match name {
                    Some(shard) => {
                        *self = ClaimStage::Shard(shard);
                        ClaimAction::ReadShard
                    },
                    None => {
                        *self = ClaimStage::Over;
                        ClaimAction::Refuse(unowned_cache_directory())
                    },
                }
            },
            ClaimEvent::RootEnd => {
                *self = ClaimStage::Over;
                ClaimAction::WriteMarker
            },
            ClaimEvent::ShardEntry(name, is_file) => {
                let own = match self {
                    ClaimStage::Shard(shard) => claims_entry(
                        borrowed(&name),
                        is_file,
                        shard.as_str(),
                    ),
                    _ => false,
                };
                if own {
                    ClaimAction::ReadShard
                } else {
                    *self = ClaimStage::Over;
                    ClaimAction::Refuse(unowned_cache_directory())
                }
            },
            ClaimEvent::ShardEnd => {
                *self = ClaimStage::Root;
                ClaimAction::ReadRoot
            },
        }
    }
}

// ---------------------------------------------------------------------------
// Laws
// ---------------------------------------------------------------------------

/// The stage after a list of finds.
pub open spec fn stage_after(found: Seq<FoundView>) -> StageView
    decreases found.len(),
{
    if found.len() == 0 {
        StageView::Marker
    } else {
        stage_after(found.drop_last()).after(found.last()).0
    }
}

/// Every find came when the claim waited for it.
pub open spec fn in_turn(found: Seq<FoundView>) -> bool {
    forall|i: int|
        0 <= i < found.len() ==> stage_after(#[trigger] found.take(i)).awaits(found[i])
}

/// A directory without a marker is claimed only if everything in it is the cache's own: when
/// the marker is written, every entry of the directory was a shard, and every entry of every
/// shard a file with a name that the cache gives.
pub proof fn only_own_directories_are_claimed(found: Seq<FoundView>)
    requires
        found.len() > 0,
        in_turn(found),
        stage_after(found.drop_last()).after(found.last()).1 is WriteMarker,
    ensures
        forall|i: int|
            0 <= i < found.len() ==> stage_after(#[trigger] found.take(i)).is_own(found[i]),
{
    let init = found.drop_last();
    let n = init.len() as int;
    assert(found.take(n) =~= init);
    assert(stage_after(found.take(n)).awaits(found[n]));
    lemma_all_own(found, n);
    assert forall|i: int| 0 <= i < found.len() implies stage_after(
        #[trigger] found.take(i),
    ).is_own(found[i]) by {
        if i == n {
            assert(stage_after(init).is_own(found.last()));
        }
    }
}

/// As long as a claim goes on, everything that it found was the cache's own.
proof fn lemma_all_own(found: Seq<FoundView>, n: int)
    requires
        0 <= n <= found.len(),
        !(stage_after(found.take(n)) is Over),
        in_turn(found),
    ensures
        forall|i: int| 0 <= i < n ==> stage_after(#[trigger] found.take(i)).is_own(found[i]),
    decreases n,
{
    if n > 0 {
        let now = found.take(n);
        let before = found.take(n - 1);
        assert(now.drop_last() =~= before);
        assert(stage_after(before).awaits(found[n - 1]));
        lemma_all_own(found, n - 1);
    }
}

/// How a claim goes on. A marker with `v1` and a line break means that the directory is claimed,
/// any other that it is not; without one every entry has to be a directory that is named by two
/// hexadecimal digits, and every entry of that a file with a name that the cache gives.
pub proof fn claims_look_at_everything(
    shard: Seq<char>,
    contents: Seq<u8>,
    name: Option<Seq<char>>,
    flag: bool,
)
    ensures
        ({
            let refused = (
                StageView::Over,
                ClaimActionView::Refuse(
                    ErrorKind::InvalidInput,
                    "cache directory is nonempty and not owned by vampire"@,
                ),
            );
            &&& StageView::Marker.after(FoundView::Marker(None)) == (
                StageView::Root,
                ClaimActionView::ReadRoot,
            )
            &&& StageView::Marker.after(FoundView::Marker(Some(contents))) == (if contents
                == seq![118u8, 49u8, 10u8] {
                (StageView::Over, ClaimActionView::Keep)
            } else {
                refused
            })
            &&& StageView::Root.after(FoundView::RootEntry(name, flag)) == (if flag && name is Some
                && is_hex(name->0, 2) {
                (StageView::Shard(name->0), ClaimActionView::ReadShard)
            } else {
                refused
            })
            &&& StageView::Root.after(FoundView::RootEnd) == (
                StageView::Over,
                ClaimActionView::WriteMarker,
            )
            &&& StageView::Shard(shard).after(FoundView::ShardEntry(name, flag)) == (if flag
                && name is Some && is_cache_name(name->0, shard) {
                (StageView::Shard(shard), ClaimActionView::ReadShard)
            } else {
                refused
            })
            &&& StageView::Shard(shard).after(FoundView::ShardEnd) == (
                StageView::Root,
                ClaimActionView::ReadRoot,
            )
        }),
{
}

/// A claim waits for what it looks at, and for nothing once it is over.
pub proof fn claims_wait_for_what_they_look_at(stage: StageView, found: FoundView)
    ensures
        stage.awaits(found) <==> match found {
            FoundView::Marker(_) => stage is Marker,
            FoundView::RootEntry(_, _) | FoundView::RootEnd => stage is Root,
            FoundView::ShardEntry(_, _) | FoundView::ShardEnd => stage is Shard,
        },
        !StageView::Over.awaits(found),
{
}

/// What is shown of a claim is what it looks at, what it found, and what it does next.
pub proof fn claims_show_what_they_hold(
    name: String,
    contents: Vec<u8>,
    flag: bool,
    error: ProxyError,
)
    ensures
        ClaimStage::Marker@ is Marker && ClaimStage::Root@ is Root && ClaimStage::Over@ is Over,
        ClaimStage::Shard(name)@ == StageView::Shard(name@),
        ClaimEvent::Marker(None)@ == FoundView::Marker(None),
        ClaimEvent::Marker(Some(contents))@ == FoundView::Marker(Some(contents@)),
        ClaimEvent::RootEntry(Some(name), flag)@ == FoundView::RootEntry(Some(name@), flag),
        ClaimEvent::RootEntry(None, flag)@ == FoundView::RootEntry(None, flag),
        ClaimEvent::ShardEntry(Some(name), flag)@ == FoundView::ShardEntry(Some(name@), flag),
        ClaimEvent::ShardEntry(None, flag)@ == FoundView::ShardEntry(None, flag),
        ClaimEvent::RootEnd@ is RootEnd && ClaimEvent::ShardEnd@ is ShardEnd,
        ClaimAction::Keep@ is Keep && ClaimAction::ReadRoot@ is ReadRoot
            && ClaimAction::ReadShard@ is ReadShard && ClaimAction::WriteMarker@ is WriteMarker,
        ClaimAction::Refuse(error)@ == ClaimActionView::Refuse(error.kind, error.message@),
{
}

} // verus!
