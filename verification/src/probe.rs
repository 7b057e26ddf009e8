use vstd::prelude::*;

verus! {

/// What a device probe does next.
#[derive(Debug, Clone, Copy, PartialEq, Eq, Structural)]
pub enum ProbeAction {
    /// The device is confirmed: open it for use.
    Open,
    /// This is not the device looked for.
    Reject,
    /// Send the query `?` `CR` and read the reply.
    SendQuery,
    /// Read again.
    KeepReading,
}

/// The Spaceball probe's decision on a read that gave the single byte
/// `reply` (`None` when a read gave no byte). Before the query, the
/// Spaceball's power-up `@` confirms it, the SpaceOrb's reset `R` rules it
/// out, and anything else calls for the query. After the query only the
/// SpaceOrb's reply `!` rules it out: a Spaceball ignores the query or
/// echoes it, so silence, like any other byte, means a Spaceball.
pub open spec fn spaceball_probe_action(queried: bool, reply: Option<u8>) -> ProbeAction {
    if !queried {
        if reply == Some(0x40u8) {
            ProbeAction::Open
        } else if reply == Some(0x52u8) {
            ProbeAction::Reject
        } else {
            ProbeAction::SendQuery
        }
    } else if reply == Some(0x21u8) {
        ProbeAction::Reject
    } else {
        ProbeAction::Open
    }
}

/// The SpaceOrb probe's decision on a read that gave `reply`. While it
/// polls for start-up output, a reset `R` or status `!` packet confirms the
/// SpaceOrb, the Spaceball's power-up `@` rules it out, and anything else,
/// silence included, means polling on. After the query only `!` confirms it.
pub open spec fn spaceorb_probe_action(queried: bool, reply: Option<u8>) -> ProbeAction {
    if !queried {
        if reply == Some(0x52u8) || reply == Some(0x21u8) {
            ProbeAction::Open
        } else if reply == Some(0x40u8) {
            ProbeAction::Reject
        } else {
            ProbeAction::KeepReading
        }
    } else if reply == Some(0x21u8) {
        ProbeAction::Open
    } else {
        ProbeAction::Reject
    }
}

/// The decisions of a Spaceball probe: first the power-up byte, then, if
/// needed, the reply to the query.
pub struct SpaceballProbe {
    queried: bool,
}

impl SpaceballProbe {
    /// Whether the query has been sent.
    pub closed spec fn queried(&self) -> bool {
        self.queried
    }

    pub fn new() -> (p: Self)
        ensures
            !p.queried(),
    {
        SpaceballProbe { queried: false }
    }

    /// Decide on the result of one read.
    pub fn on_reply(&mut self, reply: Option<u8>) -> (a: ProbeAction)
        ensures
            a == spaceball_probe_action(old(self).queried(), reply),
            final(self).queried() == (old(self).queried() || a == ProbeAction::SendQuery),
    {
        let a = if !self.queried {
            match reply {
                Some(0x40) => ProbeAction::Open,
                Some(0x52) => ProbeAction::Reject,
                _ => ProbeAction::SendQuery,
            }
        } else {
            match reply {
                Some(0x21) => ProbeAction::Reject,
                _ => ProbeAction::Open,
            }
        };
        if a == ProbeAction::SendQuery {
            self.queried = true;
        }
        a
    }
}

/// The decisions of a SpaceOrb probe: poll for start-up output until a
/// deadline, then, if needed, the reply to the query.
pub struct SpaceOrbProbe {
    queried: bool,
}

impl SpaceOrbProbe {
    /// Whether the query has been sent.
    pub closed spec fn queried(&self) -> bool {
        self.queried
    }

    pub fn new() -> (p: Self)
        ensures
            !p.queried(),
    {
        SpaceOrbProbe { queried: false }
    }

    /// Decide on the result of one read.
    pub fn on_reply(&mut self, reply: Option<u8>) -> (a: ProbeAction)
        ensures
            a == spaceorb_probe_action(old(self).queried(), reply),
            final(self).queried() == old(self).queried(),
    {
        if !self.queried {
            match reply {
                Some(0x52) => ProbeAction::Open,
                Some(0x21) => ProbeAction::Open,
                Some(0x40) => ProbeAction::Reject,
                _ => ProbeAction::KeepReading,
            }
        } else {
            match reply {
                Some(0x21) => ProbeAction::Open,
                _ => ProbeAction::Reject,
            }
        }
    }

    /// The polling deadline has passed: send the query, unless it was sent
    /// already, in which case nothing more will confirm the device.
    pub fn on_deadline(&mut self) -> (a: ProbeAction)
        ensures
            a == (if old(self).queried() { ProbeAction::Reject } else { ProbeAction::SendQuery }),
            final(self).queried(),
    {
        if self.queried {
            ProbeAction::Reject
        } else {
            self.queried = true;
            ProbeAction::SendQuery
        }
    }
}

/// Law: no single reply confirms both devices, before or after the query,
/// so probing one device type never claims the other.
pub proof fn lemma_probes_disjoint(queried: bool, reply: Option<u8>)
    ensures
        !(spaceball_probe_action(queried, reply) == ProbeAction::Open
            && spaceorb_probe_action(queried, reply) == ProbeAction::Open),
{
}

/// Law: on a silent line the query decides. A Spaceball ignores the query
/// (or echoes it), so silence after the query means a Spaceball; a SpaceOrb
/// always answers `!`, so silence after the query rules the SpaceOrb out.
pub proof fn lemma_probes_silence_after_query()
    ensures
        spaceball_probe_action(false, None) == ProbeAction::SendQuery,
        spaceball_probe_action(true, None) == ProbeAction::Open,
        spaceball_probe_action(true, Some(0x21u8)) == ProbeAction::Reject,
        spaceorb_probe_action(false, None) == ProbeAction::KeepReading,
        spaceorb_probe_action(true, None) == ProbeAction::Reject,
        spaceorb_probe_action(true, Some(0x21u8)) == ProbeAction::Open,
{
}

/// Law: each probe rejects the other device's power-up byte.
pub proof fn lemma_probes_reject_other_power_up()
    ensures
        spaceball_probe_action(false, Some(0x52u8)) == ProbeAction::Reject,
        spaceorb_probe_action(false, Some(0x40u8)) == ProbeAction::Reject,
{
}

} // verus!
