//! Deciding where one source goes when its destination may be taken.

use vstd::prelude::*;

use crate::fsops::conflict::{
    describe_occupant, numbered, numbered_name, ConflictDecision, ConflictPolicy, ConflictRequest,
    ConflictResponse, StandingAnswer,
};
use crate::fsops::identity::{about, message_about, Metadata, SnapshotKind};
use crate::fsops::local::Lookup;
use crate::fsops::mutations::{name_refusal, validate_entry_os_name};
use crate::fsops::transfer::TransferMode;
use crate::path::{copy_bytes, PathBuf, PathModel};
use crate::text::{decimal, push_decimal};

verus! {

/// How many times one source may be renamed before nobody is asked again.
///
/// A resolver that keeps returning an occupied name would otherwise spin
/// forever. Reaching this is a bug in the resolver, not a user action.
pub const MAX_CONFLICT_RETRIES: usize = 64;

/// The number of the first name tried in place of a taken one.
pub const FIRST_NUMBER: u64 = 2;

/// The number at which the search for a free name is given up.
pub const NUMBER_LIMIT: u64 = 10_000;

/// What conflict resolution decided to do with one source.
#[derive(Debug)]
pub enum SourcePlan {
    /// Transfer it to this destination, which is free.
    Transfer(PathBuf),
    /// Transfer it to this destination after displacing what is there.
    Replace(PathBuf),
    /// Fold it into the directory already at this destination.
    Merge(PathBuf),
    /// It is already where it was asked to go, so the request is satisfied.
    AlreadyInPlace,
    /// The user declined this source.
    Skip,
    /// The user abandoned the operation.
    Cancel,
    Failed(String),
}

/// What is fixed while one source is planned.
#[derive(Debug)]
pub struct Planner {
    pub source: PathBuf,
    pub metadata: Metadata,
    pub destination_dir: PathBuf,
    pub mode: TransferMode,
    /// Whether there is someone to ask.
    pub interactive: bool,
}

/// What planning a source wants next.
#[derive(Debug)]
pub enum PlanStep {
    /// The source is planned.
    Done(SourcePlan),
    /// Look at what is at the target.
    Inspect(TargetWanted),
    /// Look at whether a name like that of the target is free.
    FindName(NameWanted),
    /// Ask what to do about a target that is taken.
    Ask(AnswerWanted),
}

/// Planning waits for what is at the target.
#[derive(Debug)]
pub struct TargetWanted {
    pub planner: Planner,
    pub target: PathBuf,
    /// How many targets were looked at before.
    pub attempts: usize,
}

/// Planning waits for what is at the `number`th name like `name`.
#[derive(Debug)]
pub struct NameWanted {
    pub planner: Planner,
    pub name: Vec<u8>,
    /// Whether the source is being duplicated beside itself.
    pub duplicate: bool,
    pub number: u64,
}

/// Planning waits for an answer.
#[derive(Debug)]
pub struct AnswerWanted {
    pub planner: Planner,
    pub request: ConflictRequest,
    /// How many targets were looked at before this one.
    pub attempts: usize,
}

impl Planner {
    /// Whether the source is a directory.
    pub open spec fn from_directory(self) -> bool {
        self.metadata.kind is Directory
    }
}

/// Why a source could not be looked at.
pub open spec fn source_unreadable(source: Seq<u8>, error: Seq<char>) -> Seq<char> {
    about("Could not inspect "@, source, ": "@ + error)
}

/// Why no free name was found for a source.
pub open spec fn no_free_name(planner: Planner, duplicate: bool) -> Seq<char> {
    if duplicate {
        about("Could not find a free name to duplicate "@, planner.source.text(), ""@)
    } else {
        about("Could not find a free name for "@, planner.source.text(), about(
            " in "@,
            planner.destination_dir.text(),
            ""@,
        ))
    }
}

fn no_free_name_message(planner: &Planner, duplicate: bool) -> (message: String)
    ensures
        message@ == no_free_name(*planner, duplicate),
{
    if duplicate {
        message_about("Could not find a free name to duplicate ", &planner.source, "")
    } else {
        let place = message_about(" in ", &planner.destination_dir, "");
        message_about("Could not find a free name for ", &planner.source, place.as_str())
    }
}

/// Whether planning begins so, with this at the source.
pub open spec fn begins_plan(
    source: PathBuf,
    destination_dir: PathBuf,
    initial_target: PathBuf,
    mode: TransferMode,
    interactive: bool,
    found: Result<Metadata, String>,
    step: PlanStep,
) -> bool {
    match found {
        Err(error) => step matches PlanStep::Done(SourcePlan::Failed(message)) && message@
            == source_unreadable(source.text(), error@),
        Ok(metadata) => step == PlanStep::Inspect(
            TargetWanted {
                planner: Planner {
                    source: source,
                    metadata,
                    destination_dir: destination_dir,
                    mode,
                    interactive,
                },
                target: initial_target,
                attempts: 0,
            },
        ),
    }
}

/// Begins to resolve a destination for one source. `found` is what is at the
/// source.
pub fn plan_source(
    source: &PathBuf,
    destination_dir: &PathBuf,
    initial_target: PathBuf,
    mode: TransferMode,
    interactive: bool,
    found: Result<Metadata, String>,
) -> (step: PlanStep)
    ensures
        begins_plan(
            *source,
            *destination_dir,
            initial_target,
            mode,
            interactive,
            found,
            step,
        ),
{
    let metadata = match found {
        Ok(metadata) => metadata,
        Err(error) => {
            let mut after = ": ".to_owned();
            after.append(error.as_str());
            return PlanStep::Done(
                SourcePlan::Failed(message_about("Could not inspect ", source, after.as_str())),
            );
        },
    };
    let planner = Planner {
        source: source.clone(),
        metadata,
        destination_dir: destination_dir.clone(),
        mode,
        interactive,
    };
    PlanStep::Inspect(TargetWanted { planner, target: initial_target, attempts: 0 })
}

/// Whether planning goes on to look for a free name like that of `target`,
/// beginning with the first number, or says that there is none.
pub open spec fn looks_for_name(
    planner: Planner,
    target: PathModel,
    duplicate: bool,
    step: PlanStep,
) -> bool {
    match target.file_name() {
        Some(name) => step matches PlanStep::FindName(wanted) && wanted.planner == planner
            && wanted.name@ == name && wanted.duplicate == duplicate && wanted.number
            == FIRST_NUMBER,
        None => step matches PlanStep::Done(SourcePlan::Failed(message)) && message@
            == no_free_name(planner, duplicate),
    }
}

fn look_for_name(planner: Planner, target: &PathBuf, duplicate: bool) -> (step: PlanStep)
    ensures
        looks_for_name(planner, target@, duplicate, step),
{
    match target.file_name() {
        Some(name) => {
            let name = copy_bytes(name);
            PlanStep::FindName(NameWanted { planner, name, duplicate, number: FIRST_NUMBER })
        },
        None => PlanStep::Done(SourcePlan::Failed(no_free_name_message(&planner, duplicate))),
    }
}

impl TargetWanted {
    /// What follows from what is at the target.
    pub open spec fn follows(self, found: Lookup, step: PlanStep) -> bool {
        let planner = self.planner;
        match found {
            Lookup::Failed(error) => step matches PlanStep::Done(SourcePlan::Failed(message))
                && message@ == about(
                "Could not inspect destination "@,
                self.target.text(),
                ": "@ + error@,
            ),
            Lookup::Missing => step == PlanStep::Done(SourcePlan::Transfer(self.target)),
            Lookup::Found(occupant) => if occupant.key() == planner.metadata.key() {
                // The destination is the source. There is no question to ask.
                if planner.mode is Copy {
                    looks_for_name(planner, self.target@, true, step)
                } else if self.target@ == planner.source@ {
                    step == PlanStep::Done(SourcePlan::AlreadyInPlace)
                } else {
                    step matches PlanStep::Done(SourcePlan::Failed(message)) && message@ == about(
                        "Cannot move "@,
                        planner.source.text(),
                        " over itself"@,
                    )
                }
            } else if !planner.interactive {
                step matches PlanStep::Done(SourcePlan::Failed(message)) && message@ == about(
                    ""@,
                    self.target.text(),
                    " already exists; nothing was overwritten"@,
                )
            } else {
                step == PlanStep::Ask(
                    AnswerWanted {
                        planner,
                        request: ConflictRequest {
                            source: planner.source,
                            destination: self.target,
                            source_is_directory: planner.from_directory(),
                            destination_is_directory: occupant.kind is Directory,
                        },
                        attempts: self.attempts,
                    },
                )
            },
        }
    }

    /// What is at the target.
    pub fn found(self, found: Lookup) -> (step: PlanStep)
        ensures
            self.follows(found, step),
    {
        let TargetWanted { planner, target, attempts } = self;
        let occupant = match describe_occupant(&found) {
            Ok(Some(occupant)) => occupant,
            Ok(None) => {
                return PlanStep::Done(SourcePlan::Transfer(target));
            },
            Err(error) => {
                let mut after = ": ".to_owned();
                after.append(error.as_str());
                return PlanStep::Done(
                    SourcePlan::Failed(
                        message_about("Could not inspect destination ", &target, after.as_str()),
                    ),
                );
            },
        };
        // The destination *is* the source, which a path comparison alone would
        // miss when a hard link names the same object elsewhere. There is no
        // question to ask here, only an answer to apply.
        if occupant.is_same_object_as(&planner.metadata) {
            return match planner.mode {
                // Copying something onto itself is a request to duplicate it.
                TransferMode::Copy => look_for_name(planner, &target, true),
                TransferMode::Move => if target.same(&planner.source) {
                    // Moving something to where it already is changes nothing.
                    PlanStep::Done(SourcePlan::AlreadyInPlace)
                } else {
                    // A different name for the same object. Replacing would
                    // quarantine the very thing about to be renamed.
                    PlanStep::Done(
                        SourcePlan::Failed(
                            message_about("Cannot move ", &planner.source, " over itself"),
                        ),
                    )
                },
            };
        }
        // A skip the user chose and a refusal nobody could answer are different
        // outcomes.
        if !planner.interactive {
            return PlanStep::Done(
                SourcePlan::Failed(
                    message_about("", &target, " already exists; nothing was overwritten"),
                ),
            );
        }
        let request = ConflictRequest {
            source: planner.source.clone(),
            destination: target,
            source_is_directory: planner.metadata.kind == SnapshotKind::Directory,
            destination_is_directory: occupant.is_directory,
        };
        PlanStep::Ask(AnswerWanted { planner, request, attempts })
    }
}

impl NameWanted {
    /// The path whose turn it is.
    pub open spec fn place(self) -> PathModel {
        self.planner.destination_dir@.join(
            numbered(self.name@, self.number as nat, self.planner.from_directory()),
        )
    }

    /// What follows from what is at the path. Only a name that nothing has is
    /// free: one that cannot be looked at counts as taken.
    pub open spec fn follows(self, found: Lookup, step: PlanStep) -> bool {
        if found is Missing {
            step matches PlanStep::Done(SourcePlan::Transfer(target)) && target@ == self.place()
        } else if self.number + 1 < NUMBER_LIMIT {
            step == PlanStep::FindName(NameWanted { number: (self.number + 1) as u64, ..self })
        } else {
            step matches PlanStep::Done(SourcePlan::Failed(message)) && message@ == no_free_name(
                self.planner,
                self.duplicate,
            )
        }
    }

    /// The path to look at.
    pub fn candidate(&self) -> (path: PathBuf)
        ensures
            path@ == self.place(),
    {
        let is_directory = self.planner.metadata.kind == SnapshotKind::Directory;
        let name = numbered_name(self.name.as_slice(), self.number, is_directory);
        self.planner.destination_dir.join(name.as_slice())
    }

    /// What is at the path.
    pub fn found(self, found: &Lookup) -> (step: PlanStep)
        ensures
            self.follows(*found, step),
    {
        let free = match found {
            Lookup::Missing => true,
            _ => false,
        };
        if free {
            return PlanStep::Done(SourcePlan::Transfer(self.candidate()));
        }
        if self.number < NUMBER_LIMIT - 1 {
            let NameWanted { planner, name, duplicate, number } = self;
            PlanStep::FindName(NameWanted { planner, name, duplicate, number: number + 1 })
        } else {
            PlanStep::Done(
                SourcePlan::Failed(no_free_name_message(&self.planner, self.duplicate)),
            )
        }
    }
}

/// Whether a search went on from one name to the next.
pub open spec fn goes_on(asked: Seq<NameWanted>, found: Seq<Lookup>, at: int) -> bool {
    asked[at].follows(found[at], PlanStep::FindName(asked[at + 1]))
}

/// Whether a search asked about these names in turn, found this at each, and
/// ended in a plan.
pub open spec fn searched(
    asked: Seq<NameWanted>,
    found: Seq<Lookup>,
    plan: SourcePlan,
) -> bool {
    &&& asked.len() > 0
    &&& found.len() == asked.len()
    &&& asked[0].number == FIRST_NUMBER
    &&& forall|i: int| 0 <= i < asked.len() - 1 ==> #[trigger] goes_on(asked, found, i)
    &&& asked.last().follows(found.last(), PlanStep::Done(plan))
}

proof fn lemma_numbers_are_tried_in_turn(
    asked: Seq<NameWanted>,
    found: Seq<Lookup>,
    plan: SourcePlan,
    at: int,
)
    requires
        searched(asked, found, plan),
        0 <= at < asked.len(),
    ensures
        asked[at] == (NameWanted { number: (FIRST_NUMBER + at) as u64, ..asked[0] }),
        FIRST_NUMBER + at < NUMBER_LIMIT,
        forall|i: int| 0 <= i < at ==> !(#[trigger] found[i] is Missing),
    decreases at,
{
    if at > 0 {
        lemma_numbers_are_tried_in_turn(asked, found, plan, at - 1);
        assert(goes_on(asked, found, at - 1));
    }
}

/// A search takes the first number whose name is free, and gives up only when
/// every number below the limit is taken.
pub proof fn lemma_first_free_name_is_taken(
    asked: Seq<NameWanted>,
    found: Seq<Lookup>,
    plan: SourcePlan,
)
    requires
        searched(asked, found, plan),
    ensures
        forall|i: int|
            0 <= i < asked.len() ==> (#[trigger] asked[i]) == (NameWanted {
                number: (FIRST_NUMBER + i) as u64,
                ..asked[0]
            }),
        forall|i: int| 0 <= i < found.len() - 1 ==> !(#[trigger] found[i] is Missing),
        match plan {
            SourcePlan::Transfer(target) => found.last() is Missing && target@
                == asked.last().place(),
            SourcePlan::Failed(_) => !(found.last() is Missing) && FIRST_NUMBER + asked.len()
                == NUMBER_LIMIT,
            _ => false,
        },
{
    assert forall|i: int| 0 <= i < asked.len() implies (#[trigger] asked[i]) == (NameWanted {
        number: (FIRST_NUMBER + i) as u64,
        ..asked[0]
    }) by {
        lemma_numbers_are_tried_in_turn(asked, found, plan, i);
    }
    lemma_numbers_are_tried_in_turn(asked, found, plan, asked.len() - 1);
}

/// Why nobody is asked about a source again.
pub open spec fn out_of_attempts(source: Seq<u8>) -> Seq<char> {
    about(
        "Could not find a free name for "@,
        source,
        " after "@ + decimal(MAX_CONFLICT_RETRIES as nat) + " attempts"@,
    )
}

impl AnswerWanted {
    /// What follows from the answer.
    pub open spec fn follows(self, response: ConflictResponse, step: PlanStep) -> bool {
        let planner = self.planner;
        match response {
            ConflictResponse::Skip => step == PlanStep::Done(SourcePlan::Skip),
            ConflictResponse::Cancel => step == PlanStep::Done(SourcePlan::Cancel),
            ConflictResponse::Rename(name) => match name_refusal(name@) {
                Some(refusal) => step matches PlanStep::Done(SourcePlan::Failed(message))
                    && message@ == refusal,
                None => if self.attempts + 1 < MAX_CONFLICT_RETRIES {
                    step matches PlanStep::Inspect(wanted) && wanted.planner == planner
                        && wanted.attempts == self.attempts + 1 && wanted.target@
                        == planner.destination_dir@.join(name@)
                } else {
                    step matches PlanStep::Done(SourcePlan::Failed(message)) && message@
                        == out_of_attempts(planner.source.text())
                },
            },
            ConflictResponse::AutoRename => looks_for_name(
                planner,
                self.request.destination@,
                false,
                step,
            ),
            ConflictResponse::Replace => if !self.request.joins_directories() {
                step == PlanStep::Done(SourcePlan::Replace(self.request.destination))
            } else if planner.mode is Copy {
                step == PlanStep::Done(SourcePlan::Merge(self.request.destination))
            } else {
                step matches PlanStep::Done(SourcePlan::Failed(message)) && message@ == about(
                    ""@,
                    self.request.destination.text(),
                    " is a folder; merging folders is only supported when copying"@,
                )
            },
        }
    }

    /// What comes of a conflict that may be answered already.
    pub open spec fn serves(
        self,
        standing: Option<StandingAnswer>,
        result: Result<PlanStep, AnswerWanted>,
    ) -> bool {
        match standing {
            Some(answer) => result matches Ok(step) && self.follows(answer.says(), step),
            None => result == Err::<PlanStep, AnswerWanted>(self),
        }
    }

    /// Goes on with the answer that stands for the rest of the operation, if
    /// one does. Otherwise somebody has to be asked.
    pub fn known(self, policy: &ConflictPolicy) -> (result: Result<PlanStep, AnswerWanted>)
        ensures
            self.serves(policy@, result),
    {
        match policy.known() {
            Some(response) => Ok(self.answered(response)),
            None => Err(self),
        }
    }

    /// What was decided, for this conflict or for all that come.
    pub fn decided(self, decision: ConflictDecision, policy: &mut ConflictPolicy) -> (step:
        PlanStep)
        ensures
            self.follows(decision.response, step),
            final(policy)@ == if old(policy)@ is Some {
                old(policy)@
            } else {
                decision.standing()
            },
    {
        let response = policy.decide(decision);
        self.answered(response)
    }

    /// The answer.
    pub fn answered(self, response: ConflictResponse) -> (step: PlanStep)
        ensures
            self.follows(response, step),
    {
        let AnswerWanted { planner, request, attempts } = self;
        match response {
            ConflictResponse::Skip => PlanStep::Done(SourcePlan::Skip),
            ConflictResponse::Cancel => PlanStep::Done(SourcePlan::Cancel),
            ConflictResponse::Rename(name) => {
                match validate_entry_os_name(name.as_slice()) {
                    Ok(_) => {},
                    Err(message) => {
                        return PlanStep::Done(SourcePlan::Failed(message));
                    },
                }
                if attempts < MAX_CONFLICT_RETRIES - 1 {
                    let target = planner.destination_dir.join(name.as_slice());
                    PlanStep::Inspect(TargetWanted { planner, target, attempts: attempts + 1 })
                } else {
                    let mut after = " after ".to_owned();
                    push_decimal(&mut after, MAX_CONFLICT_RETRIES as u64);
                    after.append(" attempts");
                    PlanStep::Done(
                        SourcePlan::Failed(
                            message_about(
                                "Could not find a free name for ",
                                &planner.source,
                                after.as_str(),
                            ),
                        ),
                    )
                }
            },
            // The name is picked here, so it is searched for directly rather
            // than proposed back through the resolver.
            ConflictResponse::AutoRename => look_for_name(planner, &request.destination, false),
            // Two directories meeting is a merge, not a replacement: the
            // destination keeps everything it has and gains what it lacks.
            // Moving cannot express that, so it refuses rather than discarding
            // a tree the user expected to be joined.
            ConflictResponse::Replace => if !request.is_merge() {
                PlanStep::Done(SourcePlan::Replace(request.destination))
            } else {
                match planner.mode {
                    TransferMode::Copy => PlanStep::Done(SourcePlan::Merge(request.destination)),
                    TransferMode::Move => PlanStep::Done(
                        SourcePlan::Failed(
                            message_about(
                                "",
                                &request.destination,
                                " is a folder; merging folders is only supported when copying",
                            ),
                        ),
                    ),
                }
            },
        }
    }
}

/// An answer meant for the rest of the operation is given to every later
/// conflict, and nobody is asked again. Only a name is not.
pub proof fn lemma_one_answer_serves_the_rest(
    decision: ConflictDecision,
    later: AnswerWanted,
    result: Result<PlanStep, AnswerWanted>,
)
    requires
        decision.for_the_rest,
        !(decision.response is Rename),
        later.serves(decision.standing(), result),
    ensures
        result matches Ok(step) && later.follows(decision.response, step),
{
}

} // verus!
