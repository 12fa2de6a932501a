use vstd::prelude::*;
use crate::locator::{
    outcome_view, resolution_of, resolve, DeploymentMode, Probe, Resolution, ResolutionContext,
    ResolutionError, ResolvedLocation,
};
use crate::path::path_text;
use crate::text::{decode_lossy, decode_text, lossy_text, trim_text, trimmed};
use vstd::utf8::{decode_utf8, valid_utf8};
use crate::wire::{
    array_text, boxes_text, is_valid_coordinate, quote_json, request_text, valid_boxes,
    valid_coordinate, write_array,
};

verus! {

/// The request handed to the component: an encoded image and its boxes, each
/// box a list of coordinates written as JSON numbers. Neither is checked: the
/// bridge carries them as they are.
pub struct BridgeRequest {
    pub image_data: String,
    pub boxes: Vec<Vec<String>>,
}

pub open spec fn boxes_view(boxes: Seq<Vec<String>>) -> Seq<Seq<Seq<char>>> {
    boxes.map_values(|b: Vec<String>| b@.map_values(|s: String| s@))
}

impl BridgeRequest {
    pub fn new(image_data: String, boxes: Vec<Vec<String>>) -> (r: BridgeRequest)
        ensures
            r.image_data@ == image_data@,
            boxes_view(r.boxes@) == boxes_view(boxes@),
    {
        BridgeRequest { image_data, boxes }
    }

    /// The text that encoding this request yields when it succeeds.
    pub open spec fn wire(&self) -> Seq<char> {
        request_text(self.image_data@, boxes_view(self.boxes@))
    }
}

/// Every way in which a call of the component can fail.
#[derive(Debug)]
pub enum BridgeError {
    /// The component could not be located.
    Unresolved(ResolutionError),
    /// The request could not be serialized.
    Encode(String),
    /// The interpreter could not be started.
    SpawnFailed(String),
    /// The request could not be written to the component.
    Write(String),
    /// Waiting for the component or collecting its output failed.
    Read(String),
    /// The component's output is not UTF-8 text.
    Decode,
    /// The component exited with failure; holds what it wrote to its error stream.
    ChildFailed(String),
}

/// Serializes the request into the text written to the component's input.
/// A coordinate that is empty or holds a comma or a bracket is refused.
pub fn encode_request(req: &BridgeRequest) -> (r: Result<String, BridgeError>)
    ensures
        r matches Ok(t) ==> t@ == req.wire() && valid_boxes(boxes_view(req.boxes@)),
        !valid_boxes(boxes_view(req.boxes@)) ==> r is Err,
        valid_boxes(boxes_view(req.boxes@)) ==> r is Ok,
        r matches Err(e) ==> e is Encode,
{
    let mut i: usize = 0;
    while i < req.boxes.len()
        invariant
            i <= req.boxes@.len(),
            forall|a: int, b: int|
                0 <= a < i && 0 <= b < req.boxes@[a]@.len() ==> valid_coordinate(
                    #[trigger] req.boxes@[a]@[b]@,
                ),
        decreases req.boxes.len() - i,
    {
        let row = &req.boxes[i];
        let mut j: usize = 0;
        while j < row.len()
            invariant
                i < req.boxes@.len(),
                row == req.boxes@[i as int],
                j <= row@.len(),
                forall|a: int, b: int|
                    0 <= a < i && 0 <= b < req.boxes@[a]@.len() ==> valid_coordinate(
                        #[trigger] req.boxes@[a]@[b]@,
                    ),
                forall|b: int| 0 <= b < j ==> valid_coordinate(#[trigger] row@[b]@),
            decreases row.len() - j,
        {
            if !is_valid_coordinate(row[j].as_str()) {
                let mut detail = String::from_str("a coordinate is not a JSON number: ");
                detail.append(row[j].as_str());
                assert(boxes_view(req.boxes@)[i as int][j as int] == row@[j as int]@);
                return Err(BridgeError::Encode(detail));
            }
            j = j + 1;
        }
        i = i + 1;
    }
    assert(valid_boxes(boxes_view(req.boxes@))) by {
        assert forall|a: int, b: int|
            0 <= a < boxes_view(req.boxes@).len() && 0 <= b < boxes_view(req.boxes@)[a].len() implies valid_coordinate(
            #[trigger] boxes_view(req.boxes@)[a][b],
        ) by {
            assert(boxes_view(req.boxes@)[a][b] == req.boxes@[a]@[b]@);
        }
    }
    let quoted = match quote_json(&req.image_data) {
        Ok(q) => q,
        Err(e) => {
            return Err(BridgeError::Encode(e.to_string()));
        },
    };
    let mut rows: Vec<String> = Vec::new();
    let mut i: usize = 0;
    while i < req.boxes.len()
        invariant
            i <= req.boxes@.len(),
            rows@.map_values(|s: String| s@) == boxes_view(req.boxes@).take(i as int).map_values(
                |b: Seq<Seq<char>>| array_text(b),
            ),
        decreases req.boxes.len() - i,
    {
        let row = write_array(&req.boxes[i]);
        let ghost before = rows@.map_values(|s: String| s@);
        rows.push(row);
        proof {
            let bv = boxes_view(req.boxes@);
            assert(bv[i as int] == req.boxes@[i as int]@.map_values(|s: String| s@));
            assert(bv.take(i + 1) =~= bv.take(i as int).push(bv[i as int]));
            assert(rows@.map_values(|s: String| s@) =~= before.push(row@));
        }
        i = i + 1;
        assert(rows@.map_values(|s: String| s@) =~= boxes_view(req.boxes@).take(i as int).map_values(
            |b: Seq<Seq<char>>| array_text(b),
        ));
    }
    assert(boxes_view(req.boxes@).take(i as int) =~= boxes_view(req.boxes@));
    let boxes = write_array(&rows);
    let mut out = String::from_str("{\"image_data\":");
    out.append(quoted.as_str());
    out.append(",\"boxes\":");
    out.append(boxes.as_str());
    out.append("}");
    Ok(out)
}

/// The program that runs the component's entry point.
pub fn interpreter_name() -> (r: &'static str)
    ensures
        r@ == "python3"@,
{
    "python3"
}

/// How the component is started: the interpreter, with the entry-point file as
/// its sole argument, run in the component's directory.
#[derive(Debug)]
pub struct Invocation {
    pub program: String,
    pub args: Vec<String>,
    pub working_dir: String,
}

pub fn invocation(loc: &ResolvedLocation) -> (r: Invocation)
    ensures
        r.program@ == "python3"@,
        r.args@.len() == 1,
        r.args@[0]@ == path_text(loc.entry@),
        r.working_dir@ == path_text(loc.dir@),
{
    let mut args: Vec<String> = Vec::new();
    args.push(loc.entry.to_text());
    Invocation {
        program: String::from_str(interpreter_name()),
        args,
        working_dir: loc.dir.to_text(),
    }
}

/// What a finished component run comes to, over text views.
pub enum ExitOutcome {
    Text(Seq<char>),
    Undecodable,
    Failed(Seq<char>),
}

/// A failed run yields its error stream as text; a successful one yields its
/// output, trimmed, when that is UTF-8.
pub open spec fn exit_outcome(success: bool, stdout: Seq<u8>, stderr: Seq<u8>) -> ExitOutcome {
    if !success {
        ExitOutcome::Failed(lossy_text(stderr))
    } else {
        if valid_utf8(stdout) {
            ExitOutcome::Text(trimmed(decode_utf8(stdout)))
        } else {
            ExitOutcome::Undecodable
        }
    }
}

/// Classifies what a finished run of the component produced.
pub fn classify_exit(success: bool, stdout: Vec<u8>, stderr: Vec<u8>) -> (r: Result<
    String,
    BridgeError,
>)
    ensures
        exit_outcome(success, stdout@, stderr@) == (match r {
            Ok(t) => ExitOutcome::Text(t@),
            Err(BridgeError::ChildFailed(e)) => ExitOutcome::Failed(e@),
            Err(_) => ExitOutcome::Undecodable,
        }),
        r matches Err(e) ==> (e is ChildFailed || e is Decode),
        !success && valid_utf8(stderr@) ==> (r matches Err(BridgeError::ChildFailed(e)) && e@
            == decode_utf8(stderr@)),
{
    if !success {
        return Err(BridgeError::ChildFailed(decode_lossy(&stderr)));
    }
    match decode_text(stdout) {
        Some(t) => Ok(trim_text(&t)),
        None => Err(BridgeError::Decode),
    }
}

/// Runs of the component that both succeed with the same output come to the
/// same trimmed text, whatever they wrote to their error streams.
pub proof fn lemma_exit_outcome_deterministic(
    stdout: Seq<u8>,
    stderr_a: Seq<u8>,
    stderr_b: Seq<u8>,
)
    ensures
        exit_outcome(true, stdout, stderr_a) == exit_outcome(true, stdout, stderr_b),
        valid_utf8(stdout) ==> exit_outcome(true, stdout, stderr_a) == ExitOutcome::Text(
            trimmed(decode_utf8(stdout)),
        ),
{
}

/// What the user is told when the interpreter cannot be started.
pub open spec fn install_hint() -> Seq<char> {
    ". Install Python 3 and make sure the python3 command is on PATH"@
}

impl BridgeError {
    /// The message shown to the user.
    pub open spec fn message_spec(&self) -> Seq<char> {
        match self {
            BridgeError::Unresolved(e) => e.message_spec(),
            BridgeError::Encode(d) => "failed to serialize the request: "@ + d@,
            BridgeError::SpawnFailed(d) => "failed to start python3: "@ + d@ + install_hint(),
            BridgeError::Write(d) => "failed to write the request: "@ + d@,
            BridgeError::Read(d) => "failed to run the component: "@ + d@,
            BridgeError::Decode => "the component's output is not valid UTF-8"@,
            BridgeError::ChildFailed(d) => "the component failed: "@ + d@,
        }
    }

    pub fn message(&self) -> (r: String)
        ensures
            r@ == self.message_spec(),
    {
        let (head, detail): (&str, &String) = match self {
            BridgeError::Unresolved(e) => {
                return e.message();
            },
            BridgeError::Encode(d) => ("failed to serialize the request: ", d),
            BridgeError::SpawnFailed(d) => {
                let mut out = String::from_str("failed to start python3: ");
                out.append(d.as_str());
                out.append(". Install Python 3 and make sure the python3 command is on PATH");
                return out;
            },
            BridgeError::Write(d) => ("failed to write the request: ", d),
            BridgeError::Read(d) => ("failed to run the component: ", d),
            BridgeError::Decode => {
                return String::from_str("the component's output is not valid UTF-8");
            },
            BridgeError::ChildFailed(d) => ("the component failed: ", d),
        };
        let mut out = String::from_str(head);
        out.append(detail.as_str());
        out
    }
}

/// Everything a call needs before the component is started: where it is and
/// how to start it, and the text to write to its input.
#[derive(Debug)]
pub struct PreparedCall {
    pub location: ResolvedLocation,
    pub invocation: Invocation,
    pub input: String,
}

/// Locates the component and encodes the request. Resolution comes first; a
/// request is encoded only once the component has been located.
pub fn prepare_call(
    ctx: &ResolutionContext,
    mode: DeploymentMode,
    found: &Vec<Probe>,
    req: &BridgeRequest,
) -> (r: Result<PreparedCall, BridgeError>)
    ensures
        match resolution_of(ctx.plan(mode), found@) {
            Resolution::Located(dir, entry) => match r {
                Ok(p) => {
                    &&& p.location.dir@ == dir
                    &&& p.location.entry@ == entry
                    &&& p.invocation.program@ == "python3"@
                    &&& p.invocation.args@.len() == 1
                    &&& p.invocation.args@[0]@ == path_text(entry)
                    &&& p.invocation.working_dir@ == path_text(dir)
                    &&& p.input@ == req.wire()
                },
                Err(e) => e is Encode && !valid_boxes(boxes_view(req.boxes@)),
            },
            _ => r matches Err(BridgeError::Unresolved(e)) && outcome_view(Err(e)) == resolution_of(
                ctx.plan(mode),
                found@,
            ),
        },
{
    let location = match resolve(ctx, mode, found) {
        Ok(loc) => loc,
        Err(e) => {
            return Err(BridgeError::Unresolved(e));
        },
    };
    let input = match encode_request(req) {
        Ok(t) => t,
        Err(e) => {
            return Err(e);
        },
    };
    let invocation = invocation(&location);
    Ok(PreparedCall { location, invocation, input })
}

/// What happened once the host tried to run the component.
pub enum ExchangeReport {
    /// The interpreter could not be started; holds the reason.
    SpawnFailed(String),
    /// Writing the request failed; holds the reason.
    WriteFailed(String),
    /// Waiting for the component failed; holds the reason.
    WaitFailed(String),
    /// The component ran to its end.
    Exited { success: bool, stdout: Vec<u8>, stderr: Vec<u8> },
}

/// Turns the report of a run into the call's result.
pub fn conclude(report: ExchangeReport) -> (r: Result<String, BridgeError>)
    ensures
        match report {
            ExchangeReport::SpawnFailed(d) => r matches Err(BridgeError::SpawnFailed(e)) && e@ == d@,
            ExchangeReport::WriteFailed(d) => r matches Err(BridgeError::Write(e)) && e@ == d@,
            ExchangeReport::WaitFailed(d) => r matches Err(BridgeError::Read(e)) && e@ == d@,
            ExchangeReport::Exited { success, stdout, stderr } => exit_outcome(
                success,
                stdout@,
                stderr@,
            ) == (match r {
                Ok(t) => ExitOutcome::Text(t@),
                Err(BridgeError::ChildFailed(e)) => ExitOutcome::Failed(e@),
                Err(_) => ExitOutcome::Undecodable,
            }) && (r matches Err(e) ==> (e is ChildFailed || e is Decode)),
        },
{
    match report {
        ExchangeReport::SpawnFailed(d) => Err(BridgeError::SpawnFailed(d)),
        ExchangeReport::WriteFailed(d) => Err(BridgeError::Write(d)),
        ExchangeReport::WaitFailed(d) => Err(BridgeError::Read(d)),
        ExchangeReport::Exited { success, stdout, stderr } => classify_exit(success, stdout, stderr),
    }
}

} // verus!
