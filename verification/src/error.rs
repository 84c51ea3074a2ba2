use vstd::prelude::*;

verus! {

/// Errors returned by the contract logic.
#[derive(Copy, Clone, Debug, PartialEq, Eq, Structural)]
pub enum ContractError {
    AlreadyInitialized,
    NotInitialized,
    NotAdmin,
    InvalidNonce,
    NotRegistered,
    InvalidStakeAmount,
    Overflow,
    MathOverflow,
    Unauthorized,
    TargetNotAdmin,
    ProposalAlreadyActive,
    NoActiveProposal,
    AlreadyVoted,
    ThresholdNotReached,
    SignatureExpired,
    TransferAlreadyPending,
    NoPendingOwner,
    DivisionByZero,
    RevokedAddress,
    EmergencyRevocationAlreadyActive,
    NoActiveEmergencyRevocation,
    StaleSequence,
    InsufficientLiquidityDepth,
    IncompleteQuorum,
    EpochClosed,
    AdminChangePending,
    NoAdminChangePending,
    CosignerCannotBeProposer,
    AdminChangeTimelockNotSatisfied,
    SlippageExceeded,
    InvalidInput,
    InvalidTickSpacing,
    TickIndexAlreadyExists,
    TickIndexNotFound,
    TickNotAligned,
    TickOutOfBounds,
    TooManyTicks,
    ZeroSwapAmount,
    EventTopicLimitExceeded,
    DeadlineTooSoon,
    DeadlineTooFar,
    TooManyActiveHtlcs,
    HtlcNotFound,
    HtlcNotActive,
    DeadlineReached,
    DeadlineNotReached,
    InvalidPreImage,
    StagingNotAuthorized,
}

} // verus!
