//! Vocabulary of the wider health-data platform around the marketplace:
//! the states and categories that its sibling subsystems (data custody and
//! sharing, community moderation, research projects, achievements, health
//! alerts, proof validation, and the contract registry) exchange with the
//! hosting layers. The engine's accounting does not depend on them; they
//! are plain data, declared once so the surrounding layers can hand them
//! through typed. The one rule among them is the ordering of data
//! permission levels.

use vstd::prelude::*;

verus! {

/// Lifecycle of a research project; only an active project accepts
/// contributions, and `Completed` and `Cancelled` are terminal.
#[derive(Clone, Copy, PartialEq, Eq, Structural, Debug)]
pub enum ProjectStatus {
    Draft,
    Active,
    Paused,
    Completed,
    Cancelled,
}

/// Moderation state of a community post.
#[derive(Clone, Copy, PartialEq, Eq, Structural, Debug)]
pub enum PostStatus {
    Pending,
    Approved,
    Rejected,
}

/// A community vote.
#[derive(Clone, Copy, PartialEq, Eq, Structural, Debug)]
pub enum VoteType {
    Upvote,
    Downvote,
}

/// Permission levels for another account's access to stored data, from
/// no access to full; each level includes every weaker one.
#[derive(Clone, Copy, PartialEq, Eq, Structural, Debug)]
pub enum AccessLevel {
    NoAccess,
    ReadOnly,
    ReadWrite,
    Full,
}

/// How the levels nest: a level's rank, `NoAccess` lowest, `Full`
/// highest.
pub open spec fn access_rank(level: AccessLevel) -> int {
    match level {
        AccessLevel::NoAccess => 0,
        AccessLevel::ReadOnly => 1,
        AccessLevel::ReadWrite => 2,
        AccessLevel::Full => 3,
    }
}

impl AccessLevel {
    /// Whether a holder of this level may act at the `required` level: a
    /// granted level covers itself and every weaker one.
    pub fn grants(self, required: AccessLevel) -> (r: bool)
        ensures
            r == (access_rank(self) >= access_rank(required)),
    {
        let held: u8 = match self {
            AccessLevel::NoAccess => 0,
            AccessLevel::ReadOnly => 1,
            AccessLevel::ReadWrite => 2,
            AccessLevel::Full => 3,
        };
        let needed: u8 = match required {
            AccessLevel::NoAccess => 0,
            AccessLevel::ReadOnly => 1,
            AccessLevel::ReadWrite => 2,
            AccessLevel::Full => 3,
        };
        held >= needed
    }
}

/// Why a data-custody operation was refused.
#[derive(Clone, Copy, PartialEq, Eq, Structural, Debug)]
pub enum DataError {
    AlreadyInitialized,
    NotInitialized,
    DataNotFound,
    Unauthorized,
    StorageError,
    UserNotAuthorized,
    UserNotFound,
}

/// Why a registry operation was refused.
#[derive(Clone, Copy, PartialEq, Eq, Structural, Debug)]
pub enum RegistryError {
    AlreadyInitialized,
    NotInitialized,
    Unauthorized,
    ContractNotSet,
    UserAlreadyRegistered,
    StorageError,
}

/// The kinds of contract the registry tracks addresses for.
#[derive(Clone, Copy, PartialEq, Eq, Structural, Debug)]
pub enum ContractType {
    Auth,
    Data,
    Community,
}

/// The kinds of health alert the platform raises.
#[derive(Clone, Copy, PartialEq, Eq, Structural, Debug)]
pub enum AlertType {
    IrregularCycle,
    UnusualSymptoms,
    MedicationReminder,
    AppointmentReminder,
    HealthMetricAnomaly,
    TrendChange,
    PredictedEvent,
}

/// How urgently an alert should be surfaced.
#[derive(Clone, Copy, PartialEq, Eq, Structural, Debug)]
pub enum AlertPriority {
    Low,
    Medium,
    High,
    Urgent,
}

/// Lifecycle of an alert; all but `Active` are terminal.
#[derive(Clone, Copy, PartialEq, Eq, Structural, Debug)]
pub enum AlertStatus {
    Active,
    Resolved,
    Dismissed,
    Expired,
}

/// The achievements the rewards subsystem can grant.
#[derive(Clone, Copy, PartialEq, Eq, Structural, Debug)]
pub enum AchievementType {
    FirstEntry,
    ConsistentTracking7Days,
    ConsistentTracking30Days,
    ConsistentTracking90Days,
    CompletedBasicCourse,
    CompletedAdvancedCourse,
    SharingKnowledge,
    JoinedCommunity,
    HelpedOthers,
    TopContributor,
}

/// A user's progress toward one achievement; `completed` flips once.
#[derive(Clone, Copy, PartialEq, Eq, Debug)]
pub struct Progress {
    pub achievement_id: u32,
    pub current_value: u32,
    pub completed: bool,
    pub completed_at: Option<u64>,
}

/// Lifecycle of a learner's run through an educational module.
#[derive(Clone, Copy, PartialEq, Eq, Structural, Debug)]
pub enum ProgressStatus {
    NotStarted,
    InProgress,
    Completed,
    Failed,
}

/// What a zero-knowledge validation can attest to.
#[derive(Clone, Copy, PartialEq, Eq, Structural, Debug)]
pub enum ValidationType {
    CycleLengthInRange,
    AgeVerification,
    SymptomThreshold,
    RegularTracking,
    HealthMetricInRange,
    TreatmentEffectiveness,
}

/// The outcome of a proof validation.
#[derive(Clone, Copy, PartialEq, Eq, Structural, Debug)]
pub enum ValidationStatus {
    Valid,
    Invalid,
    Pending,
}

} // verus!
