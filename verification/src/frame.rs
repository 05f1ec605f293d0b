//! Frames: messages exactly as they arrived.

use crate::envelope::{describes_live, routed_name, Envelope, RawEnvelope};
use crate::error::{Error, Failure, Inflation};
use crate::galaxy::Galaxy;
use crate::journal::FailureView;
use crate::json::json_of;
use crate::message::{kind_of, refusal};
use crate::moment::Moment;
use crate::schema::schema_of;
use crate::text::{lossy, read_lossy};
use miniz_oxide::inflate::{decompress_to_vec_zlib, TINFLStatus};
use vstd::prelude::*;

verus! {

/// One frame off the socket, and when it arrived
///
/// The bytes are the zlib blob the gateway sent, untouched: nothing here has
/// looked inside it, so a frame this build could not parse is still a frame
/// and a recorder can write it down whole.
#[derive(Clone, Debug)]
pub struct Frame {
    /// When this process first held it.
    pub received_at: Moment,
    /// The compressed message, as received.
    pub bytes: Vec<u8>,
}

/// A frame, as counts and bytes
pub struct FrameView {
    pub received_at: (int, int),
    pub bytes: Seq<u8>,
}

impl View for Frame {
    type V = FrameView;

    open spec fn view(&self) -> FrameView {
        FrameView { received_at: self.received_at@, bytes: self.bytes@ }
    }
}

/// One message, however it reached this process
///
/// The pair a consumer is handed by any feed: what was published, and when this
/// process first held it. A live subscription stamps the moment it came off the
/// socket; a recorded one replays the moment the recorder held it, unchanged,
/// so a replay and the run it was recorded from agree about when everything
/// happened.
#[derive(Debug)]
pub struct Reading {
    pub received_at: Moment,
    pub envelope: Envelope,
}

/// What a frame decompresses to, or what stopped it.
pub uninterp spec fn inflated(bytes: Seq<u8>) -> Result<Seq<u8>, Inflation>;

/// Decompresses a frame with [`miniz_oxide`]'s `decompress_to_vec_zlib`
///
/// The contract names the result, which depends on the bytes alone: what they
/// decompress to, or the status that stopped it.
#[verifier::external_body]
fn inflate(bytes: &Vec<u8>) -> (json: Result<Vec<u8>, Inflation>)
    ensures
        match json {
            Ok(json) => inflated(bytes@) == Ok::<_, Inflation>(json@),
            Err(status) => inflated(bytes@) == Err::<Seq<u8>, _>(status),
        },
{
    decompress_to_vec_zlib(bytes).map_err(|status| match status {
        TINFLStatus::FailedCannotMakeProgress => Inflation::FailedCannotMakeProgress,
        TINFLStatus::BadParam => Inflation::BadParam,
        TINFLStatus::Adler32Mismatch => Inflation::Adler32Mismatch,
        TINFLStatus::Failed => Inflation::Failed,
        TINFLStatus::Done => Inflation::Done,
        TINFLStatus::NeedsMoreInput => Inflation::NeedsMoreInput,
        TINFLStatus::HasMoreOutput => Inflation::HasMoreOutput,
    })
}

/// Whether an error reports a message that would not read, and keeps it.
pub open spec fn reports(err: Error, failure: FailureView, json: Seq<u8>) -> bool {
    err matches Error::Parse { source, json: kept } && source@ == failure && kept@ == lossy(json)
}

/// Whether an answer is the one a message that parsed so, or would not parse,
/// is due: its envelope where the galaxy asked for shows it, nothing where it
/// does not, and an error where it would not read.
pub open spec fn settles(
    answer: Option<Result<Reading, Error>>,
    received_at: Moment,
    json: Seq<u8>,
    parsed: Result<RawEnvelope, Failure>,
    galaxy: Galaxy,
) -> bool {
    match parsed {
        Err(failure) => answer matches Some(Err(err)) && reports(err, failure@, json),
        Ok(raw) => match refusal(
            kind_of(routed_name(raw.schema_ref@)),
            json_of(raw.message),
        ) {
            Some(failure) => answer matches Some(Err(err)) && reports(err, failure, json),
            None => if galaxy.admits(describes_live(raw.schema_ref@)) {
                answer matches Some(Ok(reading)) && reading.received_at == received_at
                    && reading.envelope.places(raw)
            } else {
                answer is None
            },
        },
    }
}

impl Frame {
    /// What a message that parsed so, or would not parse, is handed over as
    ///
    /// `json` is the message as it decompressed, kept where it would not read:
    /// read as text with what is not text replaced, because it is kept to be
    /// read by a person, and one carrying bytes that are not UTF-8 is a message
    /// worth seeing rather than one to give up on twice.
    pub fn settle(
        &self,
        json: &[u8],
        parsed: Result<RawEnvelope, Failure>,
        galaxy: Galaxy,
    ) -> (answer: Option<Result<Reading, Error>>)
        ensures
            settles(answer, self.received_at, json@, parsed, galaxy),
    {
        let read = match parsed {
            Ok(raw) => Envelope::read(raw),
            Err(failure) => Err(failure),
        };
        match read {
            Ok(envelope) => {
                if !galaxy.shows(envelope.live) {
                    return None;
                }
                Some(Ok(Reading { received_at: self.received_at, envelope }))
            },
            Err(source) => Some(Err(Error::Parse { source, json: read_lossy(json) })),
        }
    }

    /// Whether an answer is what this frame reads as: its status where it will
    /// not inflate, and otherwise what is due whatever it parsed as.
    pub open spec fn is_read_as<P: Fn(&Vec<u8>) -> Result<RawEnvelope, Failure>>(
        self,
        galaxy: Galaxy,
        parse: P,
        answer: Option<Result<Reading, Error>>,
    ) -> bool {
        match inflated(self.bytes@) {
            Err(status) => answer matches Some(Err(Error::Decompress(found))) && found == status,
            Ok(json) => exists|text: Vec<u8>, parsed: Result<RawEnvelope, Failure>| #[trigger]
                call_ensures(parse, (&text,), parsed) && text@ == json && settles(
                    answer,
                    self.received_at,
                    json,
                    parsed,
                    galaxy,
                ),
        }
    }

    /// Read this frame into a message, or let it go
    ///
    /// **Everything between a frame and a [`Reading`]**: the decompress, the
    /// parse, and the galaxy the caller asked for. A live subscription and a
    /// replayed spool cannot come to different answers about the same bytes,
    /// because this is the only place either of them reads any. `parse` reads
    /// an envelope out of JSON and leaves its payload as it is.
    ///
    /// Three answers, and the third is the one worth having:
    ///
    /// - `Some(Ok(_))` -- a message, as sent.
    /// - `Some(Err(_))` -- a frame that could not be read at all, which is the
    ///   gateway or this crate being wrong and is worth saying.
    /// - [`None`] -- a frame deliberately let go for describing a galaxy the
    ///   caller did not ask for. Ordinary, and silent.
    pub fn read<P: Fn(&Vec<u8>) -> Result<RawEnvelope, Failure>>(
        &self,
        galaxy: Galaxy,
        parse: P,
    ) -> (answer: Option<Result<Reading, Error>>)
        requires
            forall|json: &Vec<u8>| call_requires(parse, (json,)),
        ensures
            self.is_read_as(galaxy, parse, answer),
    {
        match inflate(&self.bytes) {
            Err(status) => Some(Err(Error::Decompress(status))),
            Ok(json) => {
                let parsed = parse(&json);
                let ghost said = parsed;
                let answer = self.settle(json.as_slice(), parsed, galaxy);
                assert(call_ensures(parse, (&json,), said));
                answer
            },
        }
    }
}

/// What came of asking a feed for one frame
#[derive(Debug)]
pub enum Taken {
    /// The feed has ended.
    Ended,
    /// The frame was another galaxy's, and the next is worth asking for.
    LetGo,
    /// This is handed over.
    Handed(Result<Reading, Error>),
}

/// Whether this is what comes of asking a feed for a frame that answered so.
pub open spec fn takes_next<P: Fn(&Vec<u8>) -> Result<RawEnvelope, Failure>>(
    next: Option<Result<Frame, Error>>,
    galaxy: Galaxy,
    parse: P,
    taken: Taken,
) -> bool {
    match next {
        None => taken is Ended,
        Some(Err(err)) => taken matches Taken::Handed(Err(handed)) && handed == err,
        Some(Ok(frame)) => !(taken is Ended) && frame.is_read_as(galaxy, parse, answer_of(taken)),
    }
}

/// Read on from what a feed answered for its next frame
///
/// A frame let go for being another galaxy's is not the end of anything, so the
/// feed is read on; a frame that will not read at all is handed over as the
/// [`Error`] it is, and the feed goes on after it.
pub fn reading<P: Fn(&Vec<u8>) -> Result<RawEnvelope, Failure>>(
    next: Option<Result<Frame, Error>>,
    galaxy: Galaxy,
    parse: P,
) -> (taken: Taken)
    requires
        forall|json: &Vec<u8>| call_requires(parse, (json,)),
    ensures
        takes_next(next, galaxy, parse, taken),
{
    match next {
        None => Taken::Ended,
        Some(Err(err)) => Taken::Handed(Err(err)),
        Some(Ok(frame)) => match frame.read(galaxy, parse) {
            Some(read) => Taken::Handed(read),
            None => Taken::LetGo,
        },
    }
}

/// What was handed over, where anything was.
pub open spec fn answer_of(taken: Taken) -> Option<Result<Reading, Error>> {
    match taken {
        Taken::Handed(read) => Some(read),
        _ => None,
    }
}

/// A frame let go is one that read, of a galaxy that was not asked for: a frame
/// that would not read is always reported.
pub proof fn only_another_galaxy_is_let_go(
    received_at: Moment,
    json: Seq<u8>,
    parsed: Result<RawEnvelope, Failure>,
    galaxy: Galaxy,
)
    requires
        settles(None, received_at, json, parsed, galaxy),
    ensures
        parsed is Ok,
        !galaxy.admits(describes_live(parsed->Ok_0.schema_ref@)),
{
}

/// Nothing is let go by a reader that asked for every galaxy.
pub proof fn every_galaxy_lets_nothing_go(
    received_at: Moment,
    json: Seq<u8>,
    parsed: Result<RawEnvelope, Failure>,
)
    ensures
        !settles(None, received_at, json, parsed, Galaxy::ALL),
{
}

/// A message handed over belongs to the galaxy that was asked for, and carries
/// the moment its frame was received.
pub proof fn what_is_handed_over_was_asked_for(
    reading: Reading,
    received_at: Moment,
    json: Seq<u8>,
    parsed: Result<RawEnvelope, Failure>,
    galaxy: Galaxy,
)
    requires
        settles(Some(Ok(reading)), received_at, json, parsed, galaxy),
    ensures
        galaxy.admits(reading.envelope.live),
        reading.received_at == received_at,
{
}

/// A frame is answered for as its message turned out: an error that says why
/// and keeps the message where it would not parse, or where its payload would
/// not read; the message placed, with the moment it was received, where the
/// galaxy it is of was asked for; and nothing where it was not.
pub proof fn a_frame_is_answered_for(
    answer: Option<Result<Reading, Error>>,
    received_at: Moment,
    json: Seq<u8>,
    parsed: Result<RawEnvelope, Failure>,
    galaxy: Galaxy,
)
    requires
        settles(answer, received_at, json, parsed, galaxy),
    ensures
        parsed matches Err(failure) ==> (answer matches Some(
            Err(Error::Parse { source, json: kept }),
        ) && source@ == failure@ && kept@ == lossy(json)),
        parsed matches Ok(raw) ==> {
            let kind = kind_of(routed_name(raw.schema_ref@));
            let refused = refusal(kind, json_of(raw.message));
            let live = match schema_of(raw.schema_ref@) {
                Some(schema) => schema.live,
                None => true,
            };
            &&& refused is Some ==> (answer matches Some(
                Err(Error::Parse { source, json: kept }),
            ) && source@ == refused->0 && kept@ == lossy(json))
            &&& refused is None && galaxy.admits(live) ==> (answer matches Some(Ok(reading))
                && reading.received_at == received_at && reading.envelope.places(raw)
                && reading.envelope.live == live)
            &&& refused is None && !galaxy.admits(live) ==> answer is None
        },
{
}

/// A frame that will not inflate is answered with the status it stopped at, and
/// with nothing else.
pub proof fn a_frame_that_will_not_inflate_is_reported<
    P: Fn(&Vec<u8>) -> Result<RawEnvelope, Failure>,
>(frame: Frame, galaxy: Galaxy, parse: P, answer: Option<Result<Reading, Error>>)
    requires
        frame.is_read_as(galaxy, parse, answer),
    ensures
        inflated(frame.bytes@) is Err <==> (answer matches Some(Err(Error::Decompress(_)))),
        inflated(frame.bytes@) is Err ==> (answer matches Some(Err(Error::Decompress(status)))
            && inflated(frame.bytes@) == Err::<Seq<u8>, _>(status)),
{
}

/// What a feed answered is passed on: its end as the end and nothing else as
/// it, its error as that error, and a frame as what it read as. A frame is let
/// go only where it read and is of a galaxy that was not asked for, and none is
/// where every galaxy was.
pub proof fn what_a_feed_answered_is_passed_on<
    P: Fn(&Vec<u8>) -> Result<RawEnvelope, Failure>,
>(next: Option<Result<Frame, Error>>, galaxy: Galaxy, parse: P, taken: Taken)
    requires
        takes_next(next, galaxy, parse, taken),
    ensures
        taken is Ended <==> next is None,
        next matches Some(Err(err)) ==> taken == Taken::Handed(Err(err)),
        next matches Some(Ok(frame)) ==> frame.is_read_as(galaxy, parse, answer_of(taken)),
        taken is LetGo ==> (next matches Some(Ok(frame)) && exists|
            text: Vec<u8>,
            raw: RawEnvelope,
        | #[trigger]
            call_ensures(parse, (&text,), Ok::<RawEnvelope, Failure>(raw)) && inflated(
                frame.bytes@,
            ) == Ok::<_, Inflation>(text@) && !galaxy.admits(describes_live(raw.schema_ref@))),
        galaxy.admits(true) && galaxy.admits(false) ==> !(taken is LetGo),
{
    if let Some(Ok(frame)) = next {
        if taken is LetGo {
            let json = inflated(frame.bytes@)->Ok_0;
            let (text, parsed) = choose|text: Vec<u8>, parsed: Result<RawEnvelope, Failure>|
                #[trigger] call_ensures(parse, (&text,), parsed) && text@ == json && settles(
                    answer_of(taken),
                    frame.received_at,
                    json,
                    parsed,
                    galaxy,
                );
            assert(parsed is Ok);
            assert(call_ensures(parse, (&text,), Ok::<RawEnvelope, Failure>(parsed->Ok_0)));
        }
    }
}

} // verus!
