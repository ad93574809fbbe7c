//! Vocabulary of the memory layers and of shared memory.

use vstd::prelude::*;
use crate::compaction::frames::clamp_unit_bits;
use crate::manifold::{new_uuid, now_millis};
use crate::goal::contains_id;
use crate::strings::{contains_string, views};

verus! {

/// A JSON value (`serde_json::Value`), carried through unread.
#[verifier::external_type_specification]
#[verifier::external_body]
pub struct ExJsonValue(serde_json::Value);

/// The JSON `null` value (`serde_json::Value::Null`).
#[verifier::external_body]
pub(crate) fn json_null() -> serde_json::Value {
    serde_json::Value::Null
}

/// Kind of memory item.
#[derive(Debug, Clone, Copy, PartialEq, Eq, Structural)]
pub enum MemoryType {
    Action,
    Decision,
    Observation,
    Insight,
    Error,
    Success,
    Conversation,
    Code,
}

/// Where a memory item came from.
#[derive(Debug, Clone, Copy, PartialEq, Eq, Structural)]
pub enum MemoryOrigin {
    UserInput,
    AgentExecution,
    ToolOutput,
    ExternalSync,
    SystemDerived,
}

/// Memory layer of a result.
#[derive(Debug, Clone, Copy, PartialEq, Eq, Structural)]
pub enum MemorySource {
    Working,
    Episodic,
    Semantic,
}

/// Kind of semantic concept.
#[derive(Debug, Clone, Copy, PartialEq, Eq, Structural)]
pub enum ConceptType {
    CodeEntity,
    Pattern,
    Problem,
    Solution,
    Goal,
    Constraint,
    Technology,
    General,
}

/// Relation between semantic concepts.
#[derive(Debug, Clone, Copy, PartialEq, Eq, Structural)]
pub enum RelationType {
    PartOf,
    DependsOn,
    SimilarTo,
    Causes,
    Solves,
    Implements,
    Uses,
    OppositeOf,
    RelatedTo,
}

/// Kind of episode in shared memory.
#[derive(Debug, Clone, Copy, PartialEq, Eq, Structural)]
pub enum EpisodeType {
    Decision,
    Implementation,
    Validation,
    Communication,
    Learning,
    Error,
}

/// Relation between shared concepts.
#[derive(Debug, Clone, Copy, PartialEq, Eq, Structural)]
pub enum RelationshipType {
    DependsOn,
    Implements,
    Uses,
    Extends,
    Contradicts,
}

/// A best practice of a domain.
pub struct BestPractice {
    pub practice_id: String,
    pub title: String,
    pub description: String,
    pub rationale: String,
    pub examples: Vec<String>,
    pub violations: Vec<String>,
}

/// Kind of shared-memory query.
#[derive(Debug, Clone, Copy, PartialEq, Eq, Structural)]
pub enum QueryType {
    RecentEpisodes,
    SimilarPatterns,
    RelatedDecisions,
    LearnedLessons,
    ActiveContext,
}

/// Counts that summarise shared memory.
pub struct MemorySummary {
    pub active_goals: usize,
    pub total_episodes: usize,
    pub unique_agents: usize,
    pub learned_patterns: usize,
    pub known_concepts: usize,
    pub best_practice_domains: usize,
}

/// Bits of the fraction 0.5.
pub open spec fn half_bits() -> u64 {
    0x3fe0_0000_0000_0000
}

/// A memory item. Ids are UUIDs held as their 128-bit value; times are
/// milliseconds since the Unix epoch; `importance` and `confidence` hold the
/// bits of fractions in `[0.0, 1.0]`.
#[derive(Debug)]
pub struct MemoryItem {
    pub id: u128,
    pub content: String,
    pub memory_type: MemoryType,
    pub created_at: i64,
    pub last_accessed: i64,
    pub access_count: u32,
    pub importance: u64,
    pub confidence: u64,
    pub origin: MemoryOrigin,
    pub expires_at: Option<i64>,
    pub last_verified_at: Option<i64>,
    pub goal_ids: Vec<u128>,
    pub tags: Vec<String>,
    pub metadata: serde_json::Value,
}

/// `b` is `a` marked as accessed: one more access, a new access time, all
/// else kept.
pub open spec fn accessed(a: MemoryItem, b: MemoryItem) -> bool {
    &&& b.id == a.id
    &&& b.content == a.content
    &&& b.memory_type == a.memory_type
    &&& b.created_at == a.created_at
    &&& b.access_count == a.access_count + 1
    &&& b.importance == a.importance
    &&& b.confidence == a.confidence
    &&& b.origin == a.origin
    &&& b.expires_at == a.expires_at
    &&& b.last_verified_at == a.last_verified_at
    &&& b.goal_ids == a.goal_ids
    &&& b.tags == a.tags
    &&& b.metadata == a.metadata
}

impl MemoryItem {
    /// A new item of this content and type: fresh id, created, accessed and
    /// verified now, never accessed, importance and confidence 0.5, derived
    /// by the system, no expiry, goals, tags or metadata.
    pub fn new(content: String, memory_type: MemoryType) -> (m: MemoryItem)
        ensures
            m.content == content,
            m.memory_type == memory_type,
            m.access_count == 0,
            m.importance == half_bits(),
            m.confidence == half_bits(),
            m.origin == MemoryOrigin::SystemDerived,
            m.expires_at is None,
            m.last_verified_at == Some(m.created_at),
            m.last_accessed == m.created_at,
            m.goal_ids@.len() == 0,
            m.tags@.len() == 0,
    {
        let now = now_millis();
        MemoryItem {
            id: new_uuid(),
            content,
            memory_type,
            created_at: now,
            last_accessed: now,
            access_count: 0,
            importance: 0x3fe0_0000_0000_0000,
            confidence: 0x3fe0_0000_0000_0000,
            origin: MemoryOrigin::SystemDerived,
            expires_at: None,
            last_verified_at: Some(now),
            goal_ids: Vec::new(),
            tags: Vec::new(),
            metadata: json_null(),
        }
    }

    /// An empty builder.
    pub fn builder() -> (b: MemoryItemBuilder)
        ensures
            b.is_unset(),
    {
        MemoryItemBuilder::new()
    }

    /// Mark the item as accessed now.
    pub fn access(&mut self)
        requires
            old(self).access_count < u32::MAX,
        ensures
            accessed(*old(self), *final(self)),
    {
        self.last_accessed = now_millis();
        self.access_count = self.access_count + 1;
    }

    /// Mark the item as verified now, and set the confidence, clamped to
    /// `[0.0, 1.0]`, when one is given.
    pub fn mark_verified(&mut self, confidence: Option<u64>)
        ensures
            final(self).last_verified_at is Some,
            final(self).confidence == (match confidence {
                Some(c) => clamp_unit_bits(c),
                None => old(self).confidence,
            }),
            final(self).id == old(self).id,
            final(self).content == old(self).content,
            final(self).access_count == old(self).access_count,
            final(self).importance == old(self).importance,
            final(self).expires_at == old(self).expires_at,
    {
        self.last_verified_at = Some(now_millis());
        if let Some(value) = confidence {
            self.confidence = clamp_unit_bits_of(value);
        }
    }

    /// Whether the item has expired by time `now`: it has an expiry and
    /// `now` is past it.
    pub fn is_expired_at(&self, now: i64) -> (b: bool)
        ensures
            b == (match self.expires_at {
                Some(e) => now > e,
                None => false,
            }),
    {
        match self.expires_at {
            Some(e) => now > e,
            None => false,
        }
    }

    /// Whether the item has expired by now (see `is_expired_at`, at the time
    /// the clock reads); an item without expiry, or expiring at the last
    /// representable instant, never expires. Which way an item with an
    /// earlier expiry goes depends on the clock alone.
    pub fn is_expired(&self) -> (b: bool)
        ensures
            self.expires_at is None ==> !b,
            b ==> (self.expires_at matches Some(e) && e < i64::MAX),
    {
        self.is_expired_at(now_millis())
    }

    /// Whether the item may be used: it has not expired (see `is_expired`).
    pub fn is_active(&self) -> (b: bool)
        ensures
            self.expires_at is None ==> b,
            !b ==> (self.expires_at matches Some(e) && e < i64::MAX),
    {
        !self.is_expired()
    }
}

/// A fraction's bits clamped to `[0.0, 1.0]` (`f64::clamp`).
pub fn clamp_unit_bits_of(b: u64) -> (r: u64)
    ensures
        r == clamp_unit_bits(b),
{
    let magnitude = b % 0x8000_0000_0000_0000u64;
    if magnitude > 0x7ff0_0000_0000_0000u64 {
        b
    } else if b >= 0x8000_0000_0000_0000u64 {
        if magnitude == 0 {
            b
        } else {
            0
        }
    } else if b > 0x3ff0_0000_0000_0000u64 {
        0x3ff0_0000_0000_0000u64
    } else {
        b
    }
}

/// Builder of memory items.
#[derive(Default)]
pub struct MemoryItemBuilder {
    pub content: Option<String>,
    pub memory_type: Option<MemoryType>,
    pub importance: Option<u64>,
    pub confidence: Option<u64>,
    pub origin: Option<MemoryOrigin>,
    pub expires_at: Option<i64>,
    pub last_verified_at: Option<i64>,
    pub goal_ids: Vec<u128>,
    pub tags: Vec<String>,
    pub metadata: Option<serde_json::Value>,
}

/// `m` is the item built from `b` (content and type set): what was set is
/// taken; importance and confidence default to 0.5, the origin to
/// system-derived, the verification time to the creation time.
pub open spec fn built_from(m: MemoryItem, b: MemoryItemBuilder) -> bool {
    &&& m.content == b.content->0
    &&& m.memory_type == b.memory_type->0
    &&& m.last_accessed == m.created_at
    &&& m.access_count == 0
    &&& m.importance == (match b.importance {
        Some(v) => v,
        None => half_bits(),
    })
    &&& m.confidence == (match b.confidence {
        Some(v) => v,
        None => half_bits(),
    })
    &&& m.origin == (match b.origin {
        Some(o) => o,
        None => MemoryOrigin::SystemDerived,
    })
    &&& m.expires_at == b.expires_at
    &&& m.last_verified_at == (match b.last_verified_at {
        Some(t) => Some(t),
        None => Some(m.created_at),
    })
    &&& m.goal_ids == b.goal_ids
    &&& m.tags == b.tags
    &&& (b.metadata matches Some(v) ==> m.metadata == v)
}

impl MemoryItemBuilder {
    /// Nothing is set.
    pub open spec fn is_unset(self) -> bool {
        &&& self.content is None
        &&& self.memory_type is None
        &&& self.importance is None
        &&& self.confidence is None
        &&& self.origin is None
        &&& self.expires_at is None
        &&& self.last_verified_at is None
        &&& self.goal_ids@.len() == 0
        &&& self.tags@.len() == 0
        &&& self.metadata is None
    }

    /// A builder with nothing set.
    pub fn new() -> (b: MemoryItemBuilder)
        ensures
            b.is_unset(),
    {
        MemoryItemBuilder {
            content: None,
            memory_type: None,
            importance: None,
            confidence: None,
            origin: None,
            expires_at: None,
            last_verified_at: None,
            goal_ids: Vec::new(),
            tags: Vec::new(),
            metadata: None,
        }
    }

    /// Set the content.
    pub fn content(self, content: String) -> (b: MemoryItemBuilder)
        ensures
            b == (MemoryItemBuilder { content: Some(content), ..self }),
    {
        MemoryItemBuilder { content: Some(content), ..self }
    }

    /// Set the memory type.
    pub fn memory_type(self, memory_type: MemoryType) -> (b: MemoryItemBuilder)
        ensures
            b == (MemoryItemBuilder { memory_type: Some(memory_type), ..self }),
    {
        MemoryItemBuilder { memory_type: Some(memory_type), ..self }
    }

    /// Set the importance, clamped to `[0.0, 1.0]`.
    pub fn importance(self, importance: u64) -> (b: MemoryItemBuilder)
        ensures
            b == (MemoryItemBuilder { importance: Some(clamp_unit_bits(importance)), ..self }),
    {
        let c = clamp_unit_bits_of(importance);
        MemoryItemBuilder { importance: Some(c), ..self }
    }

    /// Set the confidence, clamped to `[0.0, 1.0]`.
    pub fn confidence(self, confidence: u64) -> (b: MemoryItemBuilder)
        ensures
            b == (MemoryItemBuilder { confidence: Some(clamp_unit_bits(confidence)), ..self }),
    {
        let c = clamp_unit_bits_of(confidence);
        MemoryItemBuilder { confidence: Some(c), ..self }
    }

    /// Set the origin.
    pub fn origin(self, origin: MemoryOrigin) -> (b: MemoryItemBuilder)
        ensures
            b == (MemoryItemBuilder { origin: Some(origin), ..self }),
    {
        MemoryItemBuilder { origin: Some(origin), ..self }
    }

    /// Set the expiry time.
    pub fn expires_at(self, expires_at: i64) -> (b: MemoryItemBuilder)
        ensures
            b == (MemoryItemBuilder { expires_at: Some(expires_at), ..self }),
    {
        MemoryItemBuilder { expires_at: Some(expires_at), ..self }
    }

    /// Set the last verification time.
    pub fn last_verified_at(self, verified_at: i64) -> (b: MemoryItemBuilder)
        ensures
            b == (MemoryItemBuilder { last_verified_at: Some(verified_at), ..self }),
    {
        MemoryItemBuilder { last_verified_at: Some(verified_at), ..self }
    }

    /// Add a goal id.
    pub fn goal_id(self, goal_id: u128) -> (b: MemoryItemBuilder)
        ensures
            b.goal_ids@ == self.goal_ids@.push(goal_id),
            b.content == self.content,
            b.memory_type == self.memory_type,
            b.importance == self.importance,
            b.confidence == self.confidence,
            b.origin == self.origin,
            b.expires_at == self.expires_at,
            b.last_verified_at == self.last_verified_at,
            b.tags == self.tags,
            b.metadata == self.metadata,
    {
        let mut b = self;
        b.goal_ids.push(goal_id);
        b
    }

    /// Add a tag.
    pub fn tag(self, tag: String) -> (b: MemoryItemBuilder)
        ensures
            b.tags@ == self.tags@.push(tag),
            b.content == self.content,
            b.memory_type == self.memory_type,
            b.importance == self.importance,
            b.confidence == self.confidence,
            b.origin == self.origin,
            b.expires_at == self.expires_at,
            b.last_verified_at == self.last_verified_at,
            b.goal_ids == self.goal_ids,
            b.metadata == self.metadata,
    {
        let mut b = self;
        b.tags.push(tag);
        b
    }

    /// Set the metadata.
    pub fn metadata(self, metadata: serde_json::Value) -> (b: MemoryItemBuilder)
        ensures
            b == (MemoryItemBuilder { metadata: Some(metadata), ..self }),
    {
        MemoryItemBuilder { metadata: Some(metadata), ..self }
    }

    /// The item: content and type are required; importance and confidence
    /// default to 0.5, the origin to system-derived, the verification time to
    /// the creation time; the rest is taken as set.
    pub fn build(self) -> (r: Result<MemoryItem, String>)
        ensures
            self.content is None ==> r is Err && r->Err_0@ == "content is required"@,
            self.content is Some && self.memory_type is None ==> r is Err && r->Err_0@
                == "memory_type is required"@,
            self.content is Some && self.memory_type is Some ==> r is Ok && built_from(r->Ok_0, self),
    {
        let content = match self.content {
            Some(c) => c,
            None => {
                return Err("content is required".to_string());
            },
        };
        let memory_type = match self.memory_type {
            Some(t) => t,
            None => {
                return Err("memory_type is required".to_string());
            },
        };
        let now = now_millis();
        let importance = match self.importance {
            Some(v) => v,
            None => 0x3fe0_0000_0000_0000,
        };
        let confidence = match self.confidence {
            Some(v) => v,
            None => 0x3fe0_0000_0000_0000,
        };
        let origin = match self.origin {
            Some(o) => o,
            None => MemoryOrigin::SystemDerived,
        };
        let last_verified_at = match self.last_verified_at {
            Some(t) => Some(t),
            None => Some(now),
        };
        let metadata = match self.metadata {
            Some(v) => v,
            None => json_null(),
        };
        Ok(
            MemoryItem {
                id: new_uuid(),
                content,
                memory_type,
                created_at: now,
                last_accessed: now,
                access_count: 0,
                importance,
                confidence,
                origin,
                expires_at: self.expires_at,
                last_verified_at,
                goal_ids: self.goal_ids,
                tags: self.tags,
                metadata,
            },
        )
    }
}

/// `base` followed by the entries of `more` that it does not hold yet, in
/// the order of `more`, each once.
pub open spec fn merged<T>(base: Seq<T>, more: Seq<T>) -> Seq<T>
    decreases more.len(),
{
    if more.len() == 0 {
        base
    } else {
        let acc = merged(base, more.drop_last());
        if acc.contains(more.last()) {
            acc
        } else {
            acc.push(more.last())
        }
    }
}

/// `a` and `b` agree but for their tags and goal ids.
pub open spec fn same_apart_from_lists(a: MemoryItem, b: MemoryItem) -> bool {
    &&& a.id == b.id
    &&& a.content == b.content
    &&& a.memory_type == b.memory_type
    &&& a.created_at == b.created_at
    &&& a.last_accessed == b.last_accessed
    &&& a.access_count == b.access_count
    &&& a.importance == b.importance
    &&& a.confidence == b.confidence
    &&& a.origin == b.origin
    &&& a.expires_at == b.expires_at
    &&& a.last_verified_at == b.last_verified_at
    &&& a.metadata == b.metadata
}

impl MemoryItem {
    /// Fold a near-duplicate memory into this one, which is kept: the access
    /// counts add up, and the other's tags and goal ids that this one lacks
    /// are appended in their order.
    pub fn absorb(&mut self, other: &MemoryItem)
        requires
            old(self).access_count + other.access_count <= u32::MAX,
        ensures
            final(self).access_count == old(self).access_count + other.access_count,
            views(final(self).tags@) == merged(views(old(self).tags@), views(other.tags@)),
            final(self).goal_ids@ == merged(old(self).goal_ids@, other.goal_ids@),
            final(self).id == old(self).id,
            final(self).content == old(self).content,
            final(self).memory_type == old(self).memory_type,
            final(self).created_at == old(self).created_at,
            final(self).last_accessed == old(self).last_accessed,
            final(self).importance == old(self).importance,
            final(self).confidence == old(self).confidence,
            final(self).origin == old(self).origin,
            final(self).expires_at == old(self).expires_at,
            final(self).last_verified_at == old(self).last_verified_at,
            final(self).metadata == old(self).metadata,
    {
        self.access_count = self.access_count + other.access_count;
        let ghost mid = *self;
        let ghost tags0 = views(self.tags@);
        let mut i: usize = 0;
        while i < other.tags.len()
            invariant
                i <= other.tags@.len(),
                views(self.tags@) == merged(tags0, views(other.tags@).take(i as int)),
                same_apart_from_lists(*self, mid),
                self.goal_ids == mid.goal_ids,
            decreases other.tags.len() - i,
        {
            let ghost before = self.tags@;
            proof {
                assert(views(other.tags@).take(i as int + 1).drop_last() =~= views(other.tags@).take(i as int));
            }
            if !contains_string(&self.tags, &other.tags[i]) {
                self.tags.push(other.tags[i].clone());
                proof {
                    assert(views(self.tags@) =~= views(before).push(other.tags@[i as int]@));
                }
            } else {
                proof {
                    let j = choose|j: int| 0 <= j < before.len() && #[trigger] before[j]@ == other.tags@[i as int]@;
                    assert(views(before)[j] == other.tags@[i as int]@);
                }
            }
            i = i + 1;
        }
        proof {
            assert(views(other.tags@).take(other.tags@.len() as int) =~= views(other.tags@));
        }
        let ghost ids0 = self.goal_ids@;
        let mut k: usize = 0;
        while k < other.goal_ids.len()
            invariant
                k <= other.goal_ids@.len(),
                self.goal_ids@ == merged(ids0, other.goal_ids@.take(k as int)),
                same_apart_from_lists(*self, mid),
                views(self.tags@) == merged(tags0, views(other.tags@)),
            decreases other.goal_ids.len() - k,
        {
            proof {
                assert(other.goal_ids@.take(k as int + 1).drop_last() =~= other.goal_ids@.take(k as int));
            }
            let x = other.goal_ids[k];
            if !contains_id(&self.goal_ids, x) {
                self.goal_ids.push(x);
            }
            k = k + 1;
        }
        proof {
            assert(other.goal_ids@.take(other.goal_ids@.len() as int) =~= other.goal_ids@);
        }
    }
}

} // verus!
