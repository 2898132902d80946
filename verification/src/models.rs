use vstd::prelude::*;

verus! {

/// How binding a tier is.
#[derive(Debug, Clone, Copy, PartialEq, Eq, Structural)]
pub enum TierTag {
    Must,
    Should,
    Avoid,
}

/// The tag stored under a number: 1 is `Should`, 2 is `Avoid`, and every other
/// number, 0 among them, is `Must`.
pub open spec fn tier_tag_of(v: i32) -> TierTag {
    if v == 1 {
        TierTag::Should
    } else if v == 2 {
        TierTag::Avoid
    } else {
        TierTag::Must
    }
}

/// The number a tag is stored under.
pub open spec fn tier_tag_code(t: TierTag) -> i32 {
    match t {
        TierTag::Must => 0,
        TierTag::Should => 1,
        TierTag::Avoid => 2,
    }
}

impl From<i32> for TierTag {
    fn from(v: i32) -> (r: TierTag) {
        if v == 1 {
            TierTag::Should
        } else if v == 2 {
            TierTag::Avoid
        } else {
            TierTag::Must
        }
    }
}

impl vstd::std_specs::convert::FromSpecImpl<i32> for TierTag {
    open spec fn obeys_from_spec() -> bool {
        true
    }

    open spec fn from_spec(v: i32) -> TierTag {
        tier_tag_of(v)
    }
}

impl From<TierTag> for i32 {
    fn from(t: TierTag) -> (r: i32) {
        match t {
            TierTag::Must => 0,
            TierTag::Should => 1,
            TierTag::Avoid => 2,
        }
    }
}

impl vstd::std_specs::convert::FromSpecImpl<TierTag> for i32 {
    open spec fn obeys_from_spec() -> bool {
        true
    }

    open spec fn from_spec(t: TierTag) -> i32 {
        tier_tag_code(t)
    }
}

/// A checklist category.
#[derive(Debug, Clone)]
pub struct Category {
    pub id: i32,
    pub key: String,
    pub label: String,
    pub icon: String,
    pub order_index: i32,
}

/// A section of a category.
#[derive(Debug, Clone)]
pub struct Section {
    pub id: i32,
    pub category_id: i32,
    pub title: String,
    pub icon: String,
    pub color: String,
    pub text_color: String,
    pub order_index: i32,
}

/// One rule of a section, with how binding it is.
#[derive(Debug, Clone)]
pub struct Tier {
    pub id: i32,
    pub section_id: i32,
    pub text: String,
    pub tag: TierTag,
    pub code: Option<String>,
    pub order_index: i32,
    pub is_custom: bool,
    pub user_id: Option<String>,
}

/// Whether a user has checked a tier.
#[derive(Debug, Clone)]
pub struct UserProgress {
    pub user_id: String,
    pub tier_id: i32,
    pub checked: bool,
}

/// How widely a memory entry applies.
#[derive(Debug, Clone, Copy, PartialEq, Eq, Structural)]
pub enum MemoryScope {
    ScopeGlobal,
    ScopeProject,
    ScopeSession,
    ScopeWorking,
    ScopePolicy,
    ScopeIdentity,
}

/// The scope stored under a number, 0 to 5 in declaration order.
pub open spec fn scope_of_code(v: i32) -> Option<MemoryScope> {
    if v == 0 {
        Some(MemoryScope::ScopeGlobal)
    } else if v == 1 {
        Some(MemoryScope::ScopeProject)
    } else if v == 2 {
        Some(MemoryScope::ScopeSession)
    } else if v == 3 {
        Some(MemoryScope::ScopeWorking)
    } else if v == 4 {
        Some(MemoryScope::ScopePolicy)
    } else if v == 5 {
        Some(MemoryScope::ScopeIdentity)
    } else {
        None
    }
}

/// The number a scope is stored under.
pub open spec fn scope_code(s: MemoryScope) -> i32 {
    match s {
        MemoryScope::ScopeGlobal => 0,
        MemoryScope::ScopeProject => 1,
        MemoryScope::ScopeSession => 2,
        MemoryScope::ScopeWorking => 3,
        MemoryScope::ScopePolicy => 4,
        MemoryScope::ScopeIdentity => 5,
    }
}

impl MemoryScope {
    /// The number this scope is stored under.
    pub fn code(self) -> (r: i32)
        ensures
            r == scope_code(self),
    {
        match self {
            MemoryScope::ScopeGlobal => 0,
            MemoryScope::ScopeProject => 1,
            MemoryScope::ScopeSession => 2,
            MemoryScope::ScopeWorking => 3,
            MemoryScope::ScopePolicy => 4,
            MemoryScope::ScopeIdentity => 5,
        }
    }
}

impl TryFrom<i32> for MemoryScope {
    type Error = ();

    fn try_from(v: i32) -> (r: Result<MemoryScope, ()>) {
        if v == 0 {
            Ok(MemoryScope::ScopeGlobal)
        } else if v == 1 {
            Ok(MemoryScope::ScopeProject)
        } else if v == 2 {
            Ok(MemoryScope::ScopeSession)
        } else if v == 3 {
            Ok(MemoryScope::ScopeWorking)
        } else if v == 4 {
            Ok(MemoryScope::ScopePolicy)
        } else if v == 5 {
            Ok(MemoryScope::ScopeIdentity)
        } else {
            Err(())
        }
    }
}

impl vstd::std_specs::convert::TryFromSpecImpl<i32> for MemoryScope {
    open spec fn obeys_try_from_spec() -> bool {
        true
    }

    open spec fn try_from_spec(v: i32) -> Result<MemoryScope, ()> {
        match scope_of_code(v) {
            Some(s) => Ok(s),
            None => Err(()),
        }
    }
}

/// What kind of knowledge a memory entry holds.
#[derive(Debug, Clone, Copy, PartialEq, Eq, Structural)]
pub enum MemoryCategory {
    CategoryFact,
    CategoryPreference,
    CategoryHistory,
    CategoryContext,
    CategoryInference,
}

/// The category stored under a number, 0 to 4 in declaration order.
pub open spec fn category_of_code(v: i32) -> Option<MemoryCategory> {
    if v == 0 {
        Some(MemoryCategory::CategoryFact)
    } else if v == 1 {
        Some(MemoryCategory::CategoryPreference)
    } else if v == 2 {
        Some(MemoryCategory::CategoryHistory)
    } else if v == 3 {
        Some(MemoryCategory::CategoryContext)
    } else if v == 4 {
        Some(MemoryCategory::CategoryInference)
    } else {
        None
    }
}

/// The number a category is stored under.
pub open spec fn category_code(c: MemoryCategory) -> i32 {
    match c {
        MemoryCategory::CategoryFact => 0,
        MemoryCategory::CategoryPreference => 1,
        MemoryCategory::CategoryHistory => 2,
        MemoryCategory::CategoryContext => 3,
        MemoryCategory::CategoryInference => 4,
    }
}

impl MemoryCategory {
    /// The number this category is stored under.
    pub fn code(self) -> (r: i32)
        ensures
            r == category_code(self),
    {
        match self {
            MemoryCategory::CategoryFact => 0,
            MemoryCategory::CategoryPreference => 1,
            MemoryCategory::CategoryHistory => 2,
            MemoryCategory::CategoryContext => 3,
            MemoryCategory::CategoryInference => 4,
        }
    }
}

impl TryFrom<i32> for MemoryCategory {
    type Error = ();

    fn try_from(v: i32) -> (r: Result<MemoryCategory, ()>) {
        if v == 0 {
            Ok(MemoryCategory::CategoryFact)
        } else if v == 1 {
            Ok(MemoryCategory::CategoryPreference)
        } else if v == 2 {
            Ok(MemoryCategory::CategoryHistory)
        } else if v == 3 {
            Ok(MemoryCategory::CategoryContext)
        } else if v == 4 {
            Ok(MemoryCategory::CategoryInference)
        } else {
            Err(())
        }
    }
}

impl vstd::std_specs::convert::TryFromSpecImpl<i32> for MemoryCategory {
    open spec fn obeys_try_from_spec() -> bool {
        true
    }

    open spec fn try_from_spec(v: i32) -> Result<MemoryCategory, ()> {
        match category_of_code(v) {
            Some(c) => Ok(c),
            None => Err(()),
        }
    }
}

/// What a memory entry is about.
#[derive(Debug, Clone, Copy, PartialEq, Eq, Structural)]
pub enum MemoryTopic {
    TopicLearn,
    TopicWork,
    TopicTool,
    TopicInterest,
    TopicProject,
    TopicIdentify,
}

/// The topic stored under a number, 0 to 5 in declaration order.
pub open spec fn topic_of_code(v: i32) -> Option<MemoryTopic> {
    if v == 0 {
        Some(MemoryTopic::TopicLearn)
    } else if v == 1 {
        Some(MemoryTopic::TopicWork)
    } else if v == 2 {
        Some(MemoryTopic::TopicTool)
    } else if v == 3 {
        Some(MemoryTopic::TopicInterest)
    } else if v == 4 {
        Some(MemoryTopic::TopicProject)
    } else if v == 5 {
        Some(MemoryTopic::TopicIdentify)
    } else {
        None
    }
}

impl TryFrom<i32> for MemoryTopic {
    type Error = ();

    fn try_from(v: i32) -> (r: Result<MemoryTopic, ()>) {
        if v == 0 {
            Ok(MemoryTopic::TopicLearn)
        } else if v == 1 {
            Ok(MemoryTopic::TopicWork)
        } else if v == 2 {
            Ok(MemoryTopic::TopicTool)
        } else if v == 3 {
            Ok(MemoryTopic::TopicInterest)
        } else if v == 4 {
            Ok(MemoryTopic::TopicProject)
        } else if v == 5 {
            Ok(MemoryTopic::TopicIdentify)
        } else {
            Err(())
        }
    }
}

impl vstd::std_specs::convert::TryFromSpecImpl<i32> for MemoryTopic {
    open spec fn obeys_try_from_spec() -> bool {
        true
    }

    open spec fn try_from_spec(v: i32) -> Result<MemoryTopic, ()> {
        match topic_of_code(v) {
            Some(t) => Ok(t),
            None => Err(()),
        }
    }
}

/// A relation from one memory entry to another.
#[derive(Debug, Clone)]
pub struct MemoryLink {
    pub id: i64,
    pub from_entry_id: i64,
    pub to_entry_id: i64,
    pub relation_type: String,
    pub metadata: Option<String>,
}

/// One recorded change of a memory entry.
#[derive(Debug, Clone)]
pub struct MemoryAuditLog {
    pub id: i64,
    pub entry_id: i64,
    pub operation: String,
    pub performed_by: String,
    pub timestamp: i64,
    pub old_value: Option<String>,
    pub new_value: Option<String>,
}

/// The role of a block in an assembled prompt.
#[derive(Debug, Clone, Copy, PartialEq, Eq, Structural)]
pub enum PromptBlockType {
    BlockSystem,
    BlockPolicy,
    BlockIdentity,
    BlockMemory,
    BlockTask,
    BlockToolInstruction,
    BlockPlan,
    BlockUserInput,
    BlockGuardrail,
    BlockOutputFormat,
}

/// One block of a prompt.
#[derive(Debug, Clone)]
pub struct PromptBlock {
    pub id: String,
    pub block_type: i32,
    pub priority: i32,
    pub scope: i32,
    pub content: String,
    pub source: String,
    pub constraints: Option<String>,
    pub dependencies: Vec<String>,
    pub version: i32,
}

/// The blocks assembled for one session.
#[derive(Debug, Clone)]
pub struct ContextPack {
    pub session_id: String,
    pub blocks: Vec<PromptBlock>,
    pub assembled_at: i64,
    pub trace_id: Option<String>,
    pub total_tokens_estimate: i32,
}

/// The law of the stored numbers: reading back the number a tag is stored
/// under gives the tag.
pub proof fn lemma_tier_tag_code_round_trip(t: TierTag)
    ensures
        tier_tag_of(tier_tag_code(t)) == t,
{
}

/// The law of the stored numbers: a scope read from its number is the scope,
/// and a number that names a scope is that scope's number.
pub proof fn lemma_scope_code_round_trip(s: MemoryScope, v: i32)
    ensures
        scope_of_code(scope_code(s)) == Some(s),
        scope_of_code(v) matches Some(t) ==> scope_code(t) == v,
{
}

/// The law of the stored numbers for categories.
pub proof fn lemma_category_code_round_trip(c: MemoryCategory, v: i32)
    ensures
        category_of_code(category_code(c)) == Some(c),
        category_of_code(v) matches Some(d) ==> category_code(d) == v,
{
}

} // verus!
