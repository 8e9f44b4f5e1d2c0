use vstd::prelude::*;

use crate::entity::Ent;
use crate::event_bus::{EventBus, TrainEvent};

verus! {

/// The sound effects the game can play.
#[derive(Debug, Clone, Copy, PartialEq, Eq, Structural, PartialOrd, Ord, Hash)]
pub enum SoundKind {
    ButtonUp,
    Crossword,
    HouseOfLeaves,
}

/// The asset file that holds the recording of each sound.
pub open spec fn sound_path(kind: SoundKind) -> Seq<char> {
    match kind {
        SoundKind::ButtonUp => "assets/sfx/button-up.ogg"@,
        SoundKind::Crossword => "assets/sfx/nyt-crossword.ogg"@,
        SoundKind::HouseOfLeaves => "assets/sfx/house_of_leaves.mp3"@,
    }
}

impl SoundKind {
    pub fn path(&self) -> (p: &'static str)
        ensures
            p@ == sound_path(*self),
    {
        match self {
            SoundKind::ButtonUp => "assets/sfx/button-up.ogg",
            SoundKind::Crossword => "assets/sfx/nyt-crossword.ogg",
            SoundKind::HouseOfLeaves => "assets/sfx/house_of_leaves.mp3",
        }
    }
}

/// What the sound player is asked to do for one event of the frame.
#[derive(Debug, Clone, Copy, PartialEq, Eq, Structural)]
pub enum SoundCommand {
    /// Start playing a new instance of this sound.
    Play(SoundKind),
    /// Fade out and forget the playing sound with this identifier.
    Kill(Ent),
}

/// The sound command that an event asks for, if any.
pub open spec fn sound_command_of(event: TrainEvent) -> Option<SoundCommand> {
    match event {
        TrainEvent::KillSound(id) => Some(SoundCommand::Kill(id)),
        TrainEvent::Sound(kind) => Some(SoundCommand::Play(kind)),
        _ => None,
    }
}

/// The sound commands asked for by a sequence of events, in the events' order.
pub open spec fn sound_commands_of(events: Seq<TrainEvent>) -> Seq<SoundCommand> {
    events.filter_map(|e: TrainEvent| sound_command_of(e))
}

/// The decisions of the sound manager's event handling: for each event of the
/// frame, in order, a `KillSound` stops that sound and a `Sound` plays one;
/// every other event is ignored.
pub fn sound_commands(events: &EventBus<TrainEvent>) -> (cmds: Vec<SoundCommand>)
    ensures
        cmds@ == sound_commands_of(events@),
{
    let mut cmds: Vec<SoundCommand> = Vec::new();
    let n = events.len();
    let mut i: usize = 0;
    while i < n
        invariant
            n == events@.len(),
            i <= n,
            cmds@ == sound_commands_of(events@.take(i as int)),
        decreases n - i,
    {
        let event = events.get(i);
        assert(events@.take(i + 1).drop_last() =~= events@.take(i as int));
        let ghost prev = cmds@;
        match event {
            TrainEvent::KillSound(id) => cmds.push(SoundCommand::Kill(*id)),
            TrainEvent::Sound(kind) => cmds.push(SoundCommand::Play(*kind)),
            _ => {},
        }
        proof {
            match sound_command_of(events@[i as int]) {
                Some(c) => assert(cmds@ =~= prev + seq![c]),
                None => {},
            }
        }
        i = i + 1;
    }
    assert(events@.take(n as int) =~= events@);
    cmds
}


/// The sound commands of a frame follow its events one by one: no events ask for
/// nothing; a `Sound` event of any kind adds a command to play that same kind, a
/// `KillSound` event adds a command to stop that same sound, and any other event
/// adds nothing.
pub proof fn law_sound_commands_follow_events(events: Seq<TrainEvent>, e: TrainEvent)
    ensures
        sound_commands_of(Seq::empty()) == Seq::<SoundCommand>::empty(),
        e matches TrainEvent::Sound(k) ==> sound_commands_of(events.push(e)) == sound_commands_of(events).push(
            SoundCommand::Play(k),
        ),
        e matches TrainEvent::KillSound(id) ==> sound_commands_of(events.push(e)) == sound_commands_of(
            events,
        ).push(SoundCommand::Kill(id)),
        !(e is Sound) && !(e is KillSound) ==> sound_commands_of(events.push(e)) == sound_commands_of(events),
{
    let f = |x: TrainEvent| sound_command_of(x);
    assert(events.push(e).drop_last() =~= events);
    assert(events.push(e).last() == e);
    match f(e) {
        Some(c) => assert(events.filter_map(f) + seq![c] =~= events.filter_map(f).push(c)),
        None => {},
    }
}

/// Each sound is played from a file of its own.
pub proof fn law_sound_paths_distinct(a: SoundKind, b: SoundKind)
    ensures
        a != b ==> sound_path(a) != sound_path(b),
{
    reveal_strlit("assets/sfx/button-up.ogg");
    reveal_strlit("assets/sfx/nyt-crossword.ogg");
    reveal_strlit("assets/sfx/house_of_leaves.mp3");
    assert("assets/sfx/button-up.ogg"@[11] != "assets/sfx/nyt-crossword.ogg"@[11]);
    assert("assets/sfx/button-up.ogg"@[11] != "assets/sfx/house_of_leaves.mp3"@[11]);
    assert("assets/sfx/nyt-crossword.ogg"@[11] != "assets/sfx/house_of_leaves.mp3"@[11]);
}

} // verus!
