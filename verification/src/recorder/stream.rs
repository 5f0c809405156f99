//! The subscriptions that a recording hangs on: what to do after each event,
//! and how long to wait before a new connection.
use vstd::prelude::*;

use super::watch::{address_of, AccountUpdate};
use crate::num::imin;

verus! {

/// The longest wait before a new connection, in seconds.
pub const MAX_BACKOFF: u64 = 60;

/// A wait that doubles with every failure.
#[derive(Clone, Copy, Debug, PartialEq, Eq, Structural)]
pub struct Backoff {
    pub secs: u64,
}

impl Backoff {
    pub open spec fn wf(self) -> bool {
        1 <= self.secs <= MAX_BACKOFF
    }

    pub fn new() -> (r: Self)
        ensures
            r.secs == 1,
            r.wf(),
    {
        Backoff { secs: 1 }
    }

    /// The wait after one more failure.
    pub open spec fn doubled(self) -> Self {
        Backoff { secs: imin(self.secs * 2, MAX_BACKOFF as int) as u64 }
    }

    /// The wait after `n` more failures.
    pub open spec fn after(self, n: nat) -> Self
        decreases n,
    {
        if n == 0 {
            self
        } else {
            self.after((n - 1) as nat).doubled()
        }
    }

    /// Hands out the wait, and doubles it for the next time.
    pub fn wait(&mut self) -> (r: u64)
        requires
            old(self).wf(),
        ensures
            r == old(self).secs,
            *final(self) == old(self).doubled(),
            final(self).wf(),
    {
        let secs = self.secs;
        self.secs = if secs * 2 < MAX_BACKOFF {
            secs * 2
        } else {
            MAX_BACKOFF
        };
        secs
    }
}

/// However often it fails, a wait never shrinks and stays within a minute.
pub proof fn law_backoff_bounded(b: Backoff, n: nat)
    requires
        b.wf(),
    ensures
        b.after(n).wf(),
        b.secs <= b.after(n).secs,
    decreases n,
{
    if n > 0 {
        law_backoff_bounded(b, (n - 1) as nat);
    }
}

/// An account in a message.
#[derive(Debug)]
pub struct AccountMessage {
    pub pubkey: Vec<u8>,
    pub data: Vec<u8>,
    pub write_version: u64,
    pub txn_signature: Option<Vec<u8>>,
}

/// What happened to a subscription of accounts.
#[derive(Debug)]
pub enum StreamEvent {
    ConnectFailed,
    Connected,
    SubscribeFailed,
    Subscribed,
    /// A message about an account, of which there may be nothing.
    Account { slot: u64, account: Option<AccountMessage> },
    Ping,
    OtherMessage,
    Forwarded,
    ReceiverGone,
    Failed,
    Closed,
}

/// What to do next with a subscription of accounts.
#[derive(Debug)]
pub enum StreamAction {
    /// Wait, and connect again.
    Reconnect { after_secs: u64 },
    Subscribe,
    Read,
    Forward(AccountUpdate),
    AnswerPing,
    Stop,
}

/// What is to be done next.
pub enum ActionView {
    Reconnect { after_secs: u64 },
    Subscribe,
    Read,
    Forward { pubkey: Seq<u8>, data: Seq<u8>, slot: u64, write_version: u64, signature: Option<Seq<u8>> },
    AnswerPing,
    Stop,
}

/// The bytes of a signature, if there is one.
pub open spec fn signature_bytes(s: Option<Vec<u8>>) -> Option<Seq<u8>> {
    match s {
        Some(s) => Some(s@),
        None => None,
    }
}

impl View for StreamAction {
    type V = ActionView;

    open spec fn view(&self) -> ActionView {
        match self {
            StreamAction::Reconnect { after_secs } => ActionView::Reconnect { after_secs: *after_secs },
            StreamAction::Subscribe => ActionView::Subscribe,
            StreamAction::Read => ActionView::Read,
            StreamAction::Forward(u) => ActionView::Forward {
                pubkey: u.pubkey@,
                data: u.data@,
                slot: u.slot,
                write_version: u.write_version,
                signature: signature_bytes(u.txn_signature),
            },
            StreamAction::AnswerPing => ActionView::AnswerPing,
            StreamAction::Stop => ActionView::Stop,
        }
    }
}

/// What follows an event: a lost connection is made anew after a wait, and a
/// message about an account with a whole address is handed on.
pub open spec fn next_action(b: Backoff, e: StreamEvent) -> ActionView {
    match e {
        StreamEvent::ConnectFailed
        | StreamEvent::SubscribeFailed
        | StreamEvent::Failed
        | StreamEvent::Closed => ActionView::Reconnect { after_secs: b.secs },
        StreamEvent::Connected => ActionView::Subscribe,
        StreamEvent::Subscribed | StreamEvent::OtherMessage | StreamEvent::Forwarded => ActionView::Read,
        StreamEvent::Account { slot, account } => match account {
            Some(a) => if a.pubkey@.len() == 32 {
                ActionView::Forward {
                    pubkey: a.pubkey@,
                    data: a.data@,
                    slot,
                    write_version: a.write_version,
                    signature: signature_bytes(a.txn_signature),
                }
            } else {
                ActionView::Read
            },
            None => ActionView::Read,
        },
        StreamEvent::Ping => ActionView::AnswerPing,
        StreamEvent::ReceiverGone => ActionView::Stop,
    }
}

/// The wait that is kept after an event.
pub open spec fn next_backoff(b: Backoff, e: StreamEvent) -> Backoff {
    match e {
        StreamEvent::ConnectFailed
        | StreamEvent::SubscribeFailed
        | StreamEvent::Failed
        | StreamEvent::Closed => b.doubled(),
        StreamEvent::Connected => Backoff { secs: 1 },
        _ => b,
    }
}

/// Decides what follows an event of a subscription of accounts.
pub fn on_stream_event(b: &mut Backoff, e: StreamEvent) -> (r: StreamAction)
    requires
        old(b).wf(),
    ensures
        r@ == next_action(*old(b), e),
        *final(b) == next_backoff(*old(b), e),
        final(b).wf(),
{
    match e {
        StreamEvent::ConnectFailed => StreamAction::Reconnect { after_secs: b.wait() },
        StreamEvent::SubscribeFailed => StreamAction::Reconnect { after_secs: b.wait() },
        StreamEvent::Failed => StreamAction::Reconnect { after_secs: b.wait() },
        StreamEvent::Closed => StreamAction::Reconnect { after_secs: b.wait() },
        StreamEvent::Connected => {
            b.secs = 1;
            StreamAction::Subscribe
        },
        StreamEvent::Subscribed => StreamAction::Read,
        StreamEvent::OtherMessage => StreamAction::Read,
        StreamEvent::Forwarded => StreamAction::Read,
        StreamEvent::Account { slot, account } => match account {
            Some(a) => match address_of(a.pubkey.as_slice()) {
                Some(pubkey) => StreamAction::Forward(
                    AccountUpdate {
                        pubkey,
                        data: a.data,
                        slot,
                        write_version: a.write_version,
                        txn_signature: a.txn_signature,
                    },
                ),
                None => StreamAction::Read,
            },
            None => StreamAction::Read,
        },
        StreamEvent::Ping => StreamAction::AnswerPing,
        StreamEvent::ReceiverGone => StreamAction::Stop,
    }
}

/// The waits between failed tries: each is twice the one before, up to a
/// minute, and a connection that was made starts over with a second.
pub proof fn law_waits_double(b: Backoff, failed: StreamEvent, again: StreamEvent)
    requires
        b.wf(),
        failed is ConnectFailed || failed is SubscribeFailed || failed is Failed || failed is Closed,
        again is ConnectFailed || again is SubscribeFailed || again is Failed || again is Closed,
    ensures
        next_action(b, failed) == (ActionView::Reconnect { after_secs: b.secs }),
        b.secs <= 30 ==> next_action(next_backoff(b, failed), again) == (ActionView::Reconnect {
            after_secs: (2 * b.secs) as u64,
        }),
        b.secs >= 30 ==> next_action(next_backoff(b, failed), again) == (ActionView::Reconnect { after_secs: 60 }),
        next_action(next_backoff(b, StreamEvent::Connected), failed) == (ActionView::Reconnect { after_secs: 1 }),
{
}

/// A message about an account with a whole address is handed on as it came,
/// whatever the wait, and any other is passed over. Only failures and new
/// connections touch the wait, and only a receiver that is gone ends the stream.
pub proof fn law_messages_are_handed_on(b: Backoff, slot: u64, a: AccountMessage, e: StreamEvent)
    ensures
        a.pubkey@.len() == 32 ==> next_action(b, StreamEvent::Account { slot, account: Some(a) }) == (ActionView::Forward {
            pubkey: a.pubkey@,
            data: a.data@,
            slot,
            write_version: a.write_version,
            signature: match a.txn_signature {
                Some(s) => Some(s@),
                None => None,
            },
        }),
        a.pubkey@.len() != 32 ==> next_action(b, StreamEvent::Account { slot, account: Some(a) }) == ActionView::Read,
        next_action(b, StreamEvent::Account { slot, account: None }) == ActionView::Read,
        next_action(b, e) is Stop <==> e is ReceiverGone,
        next_action(b, e) is AnswerPing <==> e is Ping,
        next_action(b, e) is Subscribe <==> e is Connected,
        next_action(b, e) is Forward ==> e is Account,
        !(next_action(b, e) is Reconnect) && !(e is Connected) ==> next_backoff(b, e) == b,
{
}

}
