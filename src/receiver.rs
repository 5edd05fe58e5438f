//! The commands that the commit-cloud subscriber accepts over its local
//! socket, and the table of actions run for each.
use vstd::prelude::*;

verus! {

/// The supported commands; any other is ignored.
#[derive(Clone, Copy, Debug, PartialEq, Eq, Hash, Structural)]
pub enum CommandName {
    CommitCloudRestartSubscriptions,
    CommitCloudCancelSubscriptions,
    CommitCloudStartSubscriptions,
}

pub open spec fn wire_name_of(c: CommandName) -> Seq<char> {
    match c {
        CommandName::CommitCloudRestartSubscriptions => "commitcloud::restart_subscriptions"@,
        CommandName::CommitCloudCancelSubscriptions => "commitcloud::cancel_subscriptions"@,
        CommandName::CommitCloudStartSubscriptions => "commitcloud::start_subscriptions"@,
    }
}

impl CommandName {
    /// The name under which the command travels.
    pub fn wire_name(&self) -> (r: &'static str)
        ensures
            r@ == wire_name_of(*self),
    {
        match self {
            CommandName::CommitCloudRestartSubscriptions => "commitcloud::restart_subscriptions",
            CommandName::CommitCloudCancelSubscriptions => "commitcloud::cancel_subscriptions",
            CommandName::CommitCloudStartSubscriptions => "commitcloud::start_subscriptions",
        }
    }
}

/// The action of the last entry for `c`.
pub open spec fn action_in<A>(actions: Seq<(CommandName, A)>, c: CommandName) -> Option<A>
    decreases actions.len(),
{
    if actions.len() == 0 {
        None
    } else if actions.last().0 == c {
        Some(actions.last().1)
    } else {
        action_in(actions.drop_last(), c)
    }
}

/// Receives commands on a local TCP port and runs the action configured for
/// each.
pub struct TcpReceiverService<A> {
    port: u16,
    actions: Vec<(CommandName, A)>,
}

proof fn lemma_action_in_append<A>(a: Seq<(CommandName, A)>, b: Seq<(CommandName, A)>, c: CommandName)
    ensures
        action_in(a + b, c) == match action_in(b, c) {
            Some(x) => Some(x),
            None => action_in(a, c),
        },
    decreases b.len(),
{
    if b.len() == 0 {
        assert(a + b =~= a);
    } else {
        assert((a + b).drop_last() =~= a + b.drop_last());
        lemma_action_in_append(a, b.drop_last(), c);
    }
}

impl<A> TcpReceiverService<A> {
    /// The action run for command `c`.
    pub closed spec fn action(&self, c: CommandName) -> Option<A> {
        action_in(self.actions@, c)
    }

    pub closed spec fn port_spec(&self) -> u16 {
        self.port
    }

    pub fn new(port: u16) -> (r: TcpReceiverService<A>)
        ensures
            r.port_spec() == port,
            forall|c: CommandName| r.action(c) is None,
    {
        TcpReceiverService { port, actions: Vec::new() }
    }

    /// Adds `actions`; an action given here for a command replaces the one it
    /// had, and the last of several for one command wins.
    pub fn with_actions(self, actions: Vec<(CommandName, A)>) -> (r: TcpReceiverService<A>)
        ensures
            r.port_spec() == self.port_spec(),
            forall|c: CommandName|
                #[trigger] r.action(c) == match action_in(actions@, c) {
                    Some(x) => Some(x),
                    None => self.action(c),
                },
    {
        let ghost old_actions = self.actions@;
        let mut all = self.actions;
        let mut added = actions;
        let ghost new_actions = added@;
        all.append(&mut added);
        proof {
            assert(all@ =~= old_actions + new_actions);
            assert forall|c: CommandName| #[trigger] action_in(all@, c) == match action_in(new_actions, c) {
                Some(x) => Some(x),
                None => action_in(old_actions, c),
            } by {
                lemma_action_in_append(old_actions, new_actions, c);
            }
        }
        TcpReceiverService { port: self.port, actions: all }
    }

    pub fn port(&self) -> (r: u16)
        ensures
            r == self.port_spec(),
    {
        self.port
    }

    /// The action configured for command `c`, if any.
    pub fn action_for(&self, c: CommandName) -> (r: Option<&A>)
        ensures
            match r {
                Some(a) => self.action(c) == Some(*a),
                None => self.action(c) is None,
            },
    {
        let mut i: usize = self.actions.len();
        proof {
            assert(self.actions@.subrange(0, i as int) =~= self.actions@);
        }
        while i > 0
            invariant
                i <= self.actions@.len(),
                action_in(self.actions@, c) == action_in(self.actions@.subrange(0, i as int), c),
            decreases i,
        {
            proof {
                assert(self.actions@.subrange(0, i as int).drop_last() =~= self.actions@.subrange(0, i - 1));
            }
            if self.actions[i - 1].0 == c {
                return Some(&self.actions[i - 1].1);
            }
            i = i - 1;
        }
        None
    }
}

} // verus!
