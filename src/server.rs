//! How the server answers what a connection asks: binding it to a team, passing on
//! actions and renaming teams. Sending and receiving are left to the caller.
use vstd::prelude::*;
use crate::entities::Action;
use crate::game::{Game, index_named, index_of};
use crate::player::Player;
use crate::types::PlayerId;

verus! {

/// What a connection wants to be.
#[derive(Debug, Clone, Copy, PartialEq, Eq, Structural)]
pub enum ClientType {
    Agent,
    Dashboard,
}

/// What a connection is bound to.
#[derive(Debug)]
pub enum ClientState {
    Unregistered,
    /// Controls the player of a team.
    Agent(PlayerId),
    /// Watches the world, following one team when given.
    Frontend(Option<PlayerId>),
}

impl Clone for ClientState {
    fn clone(&self) -> (r: ClientState)
        ensures
            r == *self,
    {
        match self {
            ClientState::Unregistered => ClientState::Unregistered,
            ClientState::Agent(id) => ClientState::Agent(id.clone()),
            ClientState::Frontend(None) => ClientState::Frontend(None),
            ClientState::Frontend(Some(id)) => ClientState::Frontend(Some(id.clone())),
        }
    }
}

/// A message to send back on the connection.
#[derive(Debug)]
pub enum Reply {
    /// The spectator view of the world.
    GameState,
    NameConfirmation(String),
    LinkFailed,
}

/// What binding a connection leads to: its new state (none: unchanged) and the
/// replies to send, in order.
#[derive(Debug)]
pub struct LinkOutcome {
    pub state: Option<ClientState>,
    pub replies: Vec<Reply>,
}

impl Game {
    /// Binds a connection. An agent needs the id of a registered team, else the
    /// link fails and its state is kept. A dashboard first gets the world's state,
    /// then follows the given team if it is registered (and gets its name), and
    /// otherwise follows none (with a failed link when an id was given).
    pub fn handle_link(&self, client_type: ClientType, player_id: Option<PlayerId>) -> (r: LinkOutcome)
        ensures
            client_type == ClientType::Agent ==> match player_id {
                None => r.state is None && r.replies@ == seq![Reply::LinkFailed],
                Some(id) => if index_of(self.players@, id) >= 0 {
                    r.state == Some(ClientState::Agent(id)) && r.replies@.len() == 0
                } else {
                    r.state is None && r.replies@ == seq![Reply::LinkFailed]
                },
            },
            client_type == ClientType::Dashboard ==> match player_id {
                None => r.state == Some(ClientState::Frontend(None)) && r.replies@ == seq![Reply::GameState],
                Some(id) => if index_of(self.players@, id) >= 0 {
                    &&& r.state == Some(ClientState::Frontend(Some(id)))
                    &&& r.replies@ == seq![
                        Reply::GameState,
                        Reply::NameConfirmation(self.players@[index_of(self.players@, id)].name),
                    ]
                } else {
                    r.state == Some(ClientState::Frontend(None)) && r.replies@ == seq![Reply::GameState, Reply::LinkFailed]
                },
            },
    {
        let mut replies: Vec<Reply> = Vec::new();
        match client_type {
            ClientType::Agent => {
                let id = match player_id {
                    None => {
                        replies.push(Reply::LinkFailed);
                        assert(replies@ =~= seq![Reply::LinkFailed]);
                        return LinkOutcome { state: None, replies };
                    },
                    Some(id) => id,
                };
                if self.find_player(&id).is_some() {
                    assert(replies@ =~= Seq::<Reply>::empty());
                    LinkOutcome { state: Some(ClientState::Agent(id)), replies }
                } else {
                    replies.push(Reply::LinkFailed);
                    assert(replies@ =~= seq![Reply::LinkFailed]);
                    LinkOutcome { state: None, replies }
                }
            },
            ClientType::Dashboard => {
                replies.push(Reply::GameState);
                let id = match player_id {
                    None => {
                        assert(replies@ =~= seq![Reply::GameState]);
                        return LinkOutcome { state: Some(ClientState::Frontend(None)), replies };
                    },
                    Some(id) => id,
                };
                match self.find_player(&id) {
                    Some(i) => {
                        replies.push(Reply::NameConfirmation(self.players[i].name.clone()));
                        assert(replies@ =~= seq![Reply::GameState, Reply::NameConfirmation(self.players@[i as int].name)]);
                        LinkOutcome { state: Some(ClientState::Frontend(Some(id))), replies }
                    },
                    None => {
                        replies.push(Reply::LinkFailed);
                        assert(replies@ =~= seq![Reply::GameState, Reply::LinkFailed]);
                        LinkOutcome { state: Some(ClientState::Frontend(None)), replies }
                    },
                }
            },
        }
    }

    /// An agent's action goes to its team's player; other connections' actions are dropped.
    pub fn handle_action(&mut self, state: &ClientState, action: Action)
        requires
            old(self).wf(),
        ensures
            final(self).wf(),
            final(self).map == old(self).map,
            final(self).config == old(self).config,
            !(state is Agent) ==> final(self).players == old(self).players,
            state is Agent ==> {
                let id = state->Agent_0;
                let i = index_of(old(self).players@, id);
                &&& i < 0 ==> final(self).players == old(self).players
                &&& i >= 0 ==> final(self).players@ == old(self).players@.update(
                    i,
                    Player { action: Some(action), ..old(self).players@[i] },
                )
            },
    {
        match state {
            ClientState::Agent(id) => self.set_player_action(id, action),
            _ => {},
        }
    }

    /// A dashboard following a team renames it; the reply confirms the new name or
    /// says the link failed. Other connections get no reply.
    pub fn handle_rename(&mut self, state: &ClientState, name: String) -> (r: Option<Reply>)
        requires
            old(self).wf(),
        ensures
            final(self).wf(),
            final(self).map == old(self).map,
            final(self).config == old(self).config,
            !(state is Frontend) ==> r is None && final(self).players == old(self).players,
            state == ClientState::Frontend(None) ==> r == Some(Reply::LinkFailed) && final(self).players == old(self).players,
            (state is Frontend && state->Frontend_0 is Some) ==> {
                let id = state->Frontend_0->0;
                let ok = crate::game::name_bytes(name@) >= 3 && index_named(old(self).players@, name@) < 0 && index_of(old(self).players@, id) >= 0;
                &&& ok ==> r == Some(Reply::NameConfirmation(name)) && final(self).players@ == old(self).players@.update(
                    index_of(old(self).players@, id),
                    Player { name, ..old(self).players@[index_of(old(self).players@, id)] },
                )
                &&& !ok ==> r == Some(Reply::LinkFailed) && final(self).players == old(self).players
            },
    {
        match state {
            ClientState::Frontend(Some(id)) => {
                let copy = name.clone();
                if self.rename_player(id, name) {
                    Some(Reply::NameConfirmation(copy))
                } else {
                    Some(Reply::LinkFailed)
                }
            },
            ClientState::Frontend(None) => Some(Reply::LinkFailed),
            _ => None,
        }
    }
}

} // verus!
