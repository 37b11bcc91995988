//! A session that is ready: its commands, its volume, its end.

use crate::requests;
use crate::session;
use crate::session::{AirPlaySession, AudioCommand, RunAction, RunEvent, KEEPALIVE_NANOS};
use crate::session::setup;
use crate::text;
use vstd::prelude::*;
use vstd::string::*;

verus! {

/// Whether the session has been without activity for so long that it keeps its connection alive.
pub open spec fn is_idle(s: session::SessionView, now: int) -> bool {
    now - s.last_keepalive >= KEEPALIVE_NANOS
}

/// Whether the session sends a request of its own on an event.
pub open spec fn run_asks(s: session::SessionView, e: RunEvent) -> bool {
    match e {
        RunEvent::Command(AudioCommand::Disconnect) | RunEvent::ChannelClosed => true,
        RunEvent::Tick { now } => is_idle(s, now as int),
        _ => false,
    }
}

/// The session after an event.
pub open spec fn run_next(s: session::SessionView, e: RunEvent) -> session::SessionView {
    let counted = session::SessionView { cseq: (s.cseq + 1) as u32, ..s };
    match e {
        RunEvent::Command(AudioCommand::SetVolume(volume)) => session::SessionView { volume, ..s },
        RunEvent::Command(AudioCommand::Disconnect) => counted,
        RunEvent::Command(_) => s,
        RunEvent::ChannelClosed => counted,
        RunEvent::Tick { now } => if is_idle(s, now as int) {
            counted
        } else {
            s
        },
        RunEvent::Finished { now } => session::SessionView { last_keepalive: now, ..s },
    }
}

/// Whether an action is what the session does on an event.
pub open spec fn run_does(s: session::SessionView, e: RunEvent, a: RunAction) -> bool {
    let cseq = (s.cseq + 1) as nat;
    let teardown = requests::teardown_request(setup::url(s), cseq, s.session_id);
    match e {
        RunEvent::Command(AudioCommand::SendAudio { data, sample_rate, channels }) => {
            a == RunAction::SendAudio { data, sample_rate, channels }
        },
        RunEvent::Command(AudioCommand::SetVolume(volume)) => a == RunAction::SetVolume(volume),
        RunEvent::Command(AudioCommand::Disconnect) | RunEvent::ChannelClosed => {
            a matches RunAction::Teardown(request) && request@ == teardown
        },
        RunEvent::Tick { now } => if is_idle(s, now as int) {
            a matches RunAction::Keepalive(request) && request@ == requests::keepalive_request(
                cseq,
                s.session_id,
            )
        } else {
            a is Wait
        },
        RunEvent::Finished { now } => a is Wait,
    }
}

/// The request for a volume, which `db` gives in dB.
pub open spec fn volume_asked(s: session::SessionView, db: Seq<char>) -> Seq<char> {
    requests::volume_request(s.address, s.port as nat, (s.cseq + 1) as nat, db)
}

/// The session with one more request sent.
pub open spec fn counted(s: session::SessionView) -> session::SessionView {
    session::SessionView { cseq: (s.cseq + 1) as u32, ..s }
}

impl AirPlaySession {
    /// Takes an event, and says what to do next. A request takes a number, and there must be one
    /// left.
    pub fn run(&mut self, event: RunEvent) -> (a: RunAction)
        requires
            old(self).wf(),
            run_asks(old(self)@, event) ==> old(self)@.cseq < u32::MAX,
        ensures
            final(self).wf(),
            final(self)@ == run_next(old(self)@, event),
            run_does(old(self)@, event, a),
    {
        match event {
            RunEvent::Command(AudioCommand::SendAudio { data, sample_rate, channels }) => {
                RunAction::SendAudio { data, sample_rate, channels }
            },
            RunEvent::Command(AudioCommand::SetVolume(volume)) => {
                self.volume = volume;
                RunAction::SetVolume(volume)
            },
            RunEvent::Command(AudioCommand::Disconnect) => self.teardown(),
            RunEvent::ChannelClosed => self.teardown(),
            RunEvent::Tick { now } => {
                if now >= self.last_keepalive && now - self.last_keepalive >= KEEPALIVE_NANOS {
                    let cseq: u32 = self.next_cseq();
                    RunAction::Keepalive(requests::write_keepalive(cseq, self.session_id.as_str()))
                } else {
                    RunAction::Wait
                }
            },
            RunEvent::Finished { now } => {
                self.last_keepalive = now;
                RunAction::Wait
            },
        }
    }

    /// Ends the session.
    fn teardown(&mut self) -> (a: RunAction)
        requires
            old(self).wf(),
            old(self)@.cseq < u32::MAX,
        ensures
            final(self).wf(),
            final(self)@ == (session::SessionView {
                cseq: (old(self)@.cseq + 1) as u32,
                ..old(self)@
            }),
            a matches RunAction::Teardown(request) && request@ == requests::teardown_request(
                setup::url(old(self)@),
                (old(self)@.cseq + 1) as nat,
                old(self)@.session_id,
            ),
    {
        let url: String = self.stream_url();
        let cseq: u32 = self.next_cseq();
        RunAction::Teardown(requests::write_teardown(url.as_str(), cseq, self.session_id.as_str()))
    }

    /// The request for a volume, which `db` gives in dB.
    pub fn volume_request(&mut self, db: &str) -> (r: String)
        requires
            old(self).wf(),
            old(self)@.cseq < u32::MAX,
        ensures
            final(self).wf(),
            final(self)@ == counted(old(self)@),
            r@ == volume_asked(old(self)@, db@),
    {
        let cseq: u32 = self.next_cseq();
        requests::write_volume(self.device.address.as_str(), self.device.port, cseq, db)
    }

    /// The number of the request sent last.
    pub fn cseq(&self) -> (r: u32)
        ensures
            r == self@.cseq,
    {
        self.cseq
    }
}

/// Activity puts the next sign of life off: none is sent within 15 seconds of it.
pub proof fn law_activity_defers_keepalive(s: session::SessionView, done: u64, now: u64)
    ensures
        is_idle(run_next(s, RunEvent::Finished { now: done }), now as int) <==> now - done
            >= 15_000_000_000,
{
}

/// A session ends when it is told to or when nobody can tell it anything any more, and at no other
/// time: not when a command, or a sign of life, has failed.
pub proof fn law_session_ends_only_when_told(s: session::SessionView, e: RunEvent, a: RunAction)
    requires
        run_does(s, e, a),
    ensures
        a is Teardown <==> (e is ChannelClosed || e == RunEvent::Command(AudioCommand::Disconnect)),
{
}

/// Each request of a session that is ready bears the next number, and nothing else counts.
pub proof fn law_run_numbers_requests(s: session::SessionView, e: RunEvent, a: RunAction)
    requires
        run_does(s, e, a),
        run_asks(s, e) ==> s.cseq < u32::MAX,
    ensures
        a is Keepalive || a is Teardown <==> run_asks(s, e),
        run_next(s, e).cseq == if run_asks(s, e) {
            s.cseq + 1
        } else {
            s.cseq as int
        },
{
}

/// The volume asked of the receiver is the one commanded, and the one that the session then holds.
pub proof fn law_volume_as_commanded(s: session::SessionView, volume: i32, a: RunAction)
    requires
        run_does(s, RunEvent::Command(AudioCommand::SetVolume(volume)), a),
    ensures
        a matches RunAction::SetVolume(asked) && asked == volume,
        run_next(s, RunEvent::Command(AudioCommand::SetVolume(volume))).volume == volume,
        (session::SessionView {
            volume: s.volume,
            ..run_next(s, RunEvent::Command(AudioCommand::SetVolume(volume)))
        }) == s,
{
}

/// Audio goes on as it came, and changes nothing by itself.
pub proof fn law_audio_as_commanded(
    s: session::SessionView,
    data: Vec<u8>,
    sample_rate: u32,
    channels: u32,
    a: RunAction,
)
    requires
        run_does(
            s,
            RunEvent::Command((AudioCommand::SendAudio { data, sample_rate, channels })),
            a,
        ),
    ensures
        (a matches RunAction::SendAudio { data: d, sample_rate: r, channels: c } && d@ == data@ && r
            == sample_rate && c == channels),
        run_next(
            s,
            RunEvent::Command((AudioCommand::SendAudio { data, sample_rate, channels })),
        ) == s,
{
}

/// The end of a session is a TEARDOWN of its stream and its session, under the next number.
pub proof fn law_teardown_names_session(s: session::SessionView, e: RunEvent, a: RunAction)
    requires
        run_does(s, e, a),
        e is ChannelClosed || e == RunEvent::Command(AudioCommand::Disconnect),
        s.cseq < u32::MAX,
    ensures
        a matches RunAction::Teardown(request) && request@ == requests::teardown_request(
            "rtsp://"@ + s.address + ":"@ + text::decimal(s.port as nat) + "/"@ + text::decimal(
                s.ssrc as nat,
            ),
            (s.cseq + 1) as nat,
            s.session_id,
        ),
        run_next(s, e).cseq == s.cseq + 1,
        (session::SessionView { cseq: s.cseq, ..run_next(s, e) }) == s,
{
}

/// A sign of life goes out when 15 seconds have passed since the last activity, not before; it names
/// the session, and bears the next number. Else the session waits, and nothing changes.
pub proof fn law_keepalive_when_idle(s: session::SessionView, now: u64, a: RunAction)
    requires
        run_does(s, (RunEvent::Tick { now }), a),
        s.cseq < u32::MAX,
    ensures
        now < s.last_keepalive + 15_000_000_000 ==> a is Wait && run_next(
            s,
            (RunEvent::Tick { now }),
        ) == s,
        now >= s.last_keepalive + 15_000_000_000 ==> {
            &&& a matches RunAction::Keepalive(request)
            &&& request@ == requests::keepalive_request((s.cseq + 1) as nat, s.session_id)
            &&& run_next(s, (RunEvent::Tick { now })).cseq == s.cseq + 1
            &&& (session::SessionView { cseq: s.cseq, ..run_next(s, (RunEvent::Tick { now })) }) == s
        },
{
}

/// What has been done counts as activity, at the time when it was finished, and changes nothing else.
pub proof fn law_finishing_is_activity(s: session::SessionView, now: u64, a: RunAction)
    requires
        run_does(s, (RunEvent::Finished { now }), a),
    ensures
        a is Wait,
        run_next(s, (RunEvent::Finished { now })).last_keepalive == now,
        (session::SessionView {
            last_keepalive: s.last_keepalive,
            ..run_next(s, (RunEvent::Finished { now }))
        }) == s,
{
}

/// A volume is asked of the receiver's address and port, under the next number, in the dB given, and
/// only the number is used.
pub proof fn law_volume_is_asked_of_receiver(s: session::SessionView, db: Seq<char>)
    requires
        s.cseq < u32::MAX,
        requests::on_one_line(s.address),
    ensures
        ({
            let request = volume_asked(s, db);
            let body = "volume: "@ + db + "\r\n"@;
            let lines = text::lines(request.take(request.len() - body.len()));
            &&& request.skip(request.len() - body.len()) == body
            &&& lines.len() == 6
            &&& lines[0] == "SET_PARAMETER rtsp://"@ + s.address + ":"@ + text::decimal(
                s.port as nat,
            ) + "/audio RTSP/1.0"@
            &&& lines[1] == "CSeq: "@ + text::decimal(counted(s).cseq as nat)
        }),
        counted(s).cseq == s.cseq + 1,
        (session::SessionView { cseq: s.cseq, ..counted(s) }) == s,
{
    requests::law_volume_lines(s.address, s.port as nat, (s.cseq + 1) as nat, db);
    let request = volume_asked(s, db);
    let body = "volume: "@ + db + "\r\n"@;
    let head = request.take(request.len() - body.len());
    assert(request == head + body);
    assert((head + body).skip(head.len() as int) == body);
}

} // verus!
