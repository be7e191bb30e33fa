use vstd::prelude::*;

verus! {

/// Identifier of one node of the computation graph.
#[derive(Clone, Copy, Debug, PartialEq, Eq, Hash, Structural)]
pub struct NodeID {
    pub value: u64,
}

impl NodeID {
    pub fn new(value: u64) -> (r: NodeID)
        ensures
            r.value == value,
    {
        NodeID { value }
    }
}

/// A retained node output. Payloads of different kinds share one store;
/// each kind is read back through [`StateValue`].
#[derive(Debug, PartialEq, Eq)]
pub enum StateContent {
    Int(i64),
    Bool(bool),
    Text(String),
}

impl StateContent {
    /// An independent copy of the content.
    pub fn duplicate(&self) -> (r: StateContent)
        ensures
            r == *self,
    {
        match self {
            StateContent::Int(v) => StateContent::Int(*v),
            StateContent::Bool(b) => StateContent::Bool(*b),
            StateContent::Text(s) => StateContent::Text(s.clone()),
        }
    }
}

/// A payload type that can be stored as [`StateContent`] and read back.
pub trait StateValue: Sized {
    /// The content that stores `self`.
    spec fn content_of(self) -> StateContent;

    /// The value held by `c`, if `c` holds a value of this type.
    spec fn value_of(c: StateContent) -> Option<Self>;

    /// Reading back what was stored gives the stored value.
    proof fn lemma_round_trip(v: Self)
        ensures
            Self::value_of(v.content_of()) == Some(v),
    ;

    fn into_content(self) -> (c: StateContent)
        ensures
            c == self.content_of(),
    ;

    /// Downcast that keeps the content in place (the value is copied).
    fn from_content_ref(c: &StateContent) -> (r: Option<Self>)
        ensures
            r == Self::value_of(*c),
    ;

    /// Downcast that consumes the content.
    fn from_content(c: StateContent) -> (r: Option<Self>)
        ensures
            r == Self::value_of(c),
    ;
}

impl StateValue for i64 {
    open spec fn content_of(self) -> StateContent {
        StateContent::Int(self)
    }

    open spec fn value_of(c: StateContent) -> Option<i64> {
        match c {
            StateContent::Int(v) => Some(v),
            _ => None,
        }
    }

    proof fn lemma_round_trip(v: i64) {
    }

    fn into_content(self) -> (c: StateContent) {
        StateContent::Int(self)
    }

    fn from_content_ref(c: &StateContent) -> (r: Option<i64>) {
        match c {
            StateContent::Int(v) => Some(*v),
            _ => None,
        }
    }

    fn from_content(c: StateContent) -> (r: Option<i64>) {
        match c {
            StateContent::Int(v) => Some(v),
            _ => None,
        }
    }
}

impl StateValue for bool {
    open spec fn content_of(self) -> StateContent {
        StateContent::Bool(self)
    }

    open spec fn value_of(c: StateContent) -> Option<bool> {
        match c {
            StateContent::Bool(b) => Some(b),
            _ => None,
        }
    }

    proof fn lemma_round_trip(v: bool) {
    }

    fn into_content(self) -> (c: StateContent) {
        StateContent::Bool(self)
    }

    fn from_content_ref(c: &StateContent) -> (r: Option<bool>) {
        match c {
            StateContent::Bool(b) => Some(*b),
            _ => None,
        }
    }

    fn from_content(c: StateContent) -> (r: Option<bool>) {
        match c {
            StateContent::Bool(b) => Some(b),
            _ => None,
        }
    }
}

impl StateValue for String {
    open spec fn content_of(self) -> StateContent {
        StateContent::Text(self)
    }

    open spec fn value_of(c: StateContent) -> Option<String> {
        match c {
            StateContent::Text(s) => Some(s),
            _ => None,
        }
    }

    proof fn lemma_round_trip(v: String) {
    }

    fn into_content(self) -> (c: StateContent) {
        StateContent::Text(self)
    }

    fn from_content_ref(c: &StateContent) -> (r: Option<String>) {
        match c {
            StateContent::Text(s) => Some(s.clone()),
            _ => None,
        }
    }

    fn from_content(c: StateContent) -> (r: Option<String>) {
        match c {
            StateContent::Text(s) => Some(s),
            _ => None,
        }
    }
}

/// The state of one node: either its output must be recomputed from its
/// parents, or it is retained. Both carry the number of uses still to come.
#[derive(Debug, PartialEq, Eq)]
pub enum State {
    Recompute { n_required: usize },
    Computed { state_content: StateContent, n_required: usize },
}

impl State {
    pub open spec fn count(self) -> usize {
        match self {
            State::Recompute { n_required } => n_required,
            State::Computed { n_required, .. } => n_required,
        }
    }

    /// The same state with its counter replaced by `n`.
    pub open spec fn with_count(self, n: usize) -> State {
        match self {
            State::Recompute { .. } => State::Recompute { n_required: n },
            State::Computed { state_content, .. } => State::Computed { state_content, n_required: n },
        }
    }

    /// Two states of one node can be merged when they are of the same kind
    /// and their summed counter fits.
    pub open spec fn can_merge(self, other: State) -> bool {
        &&& (self is Recompute <==> other is Recompute)
        &&& self.count() + other.count() <= usize::MAX
    }

    /// The merge of two states of one node: counters add up, and a retained
    /// state keeps the payload of `self`.
    pub open spec fn merged(self, other: State) -> State {
        self.with_count((self.count() + other.count()) as usize)
    }

    /// Reference to the retained output. Only a computed state holds one.
    pub fn to_state_content(&self) -> (r: &StateContent)
        requires
            self is Computed,
        ensures
            *r == self->state_content,
    {
        match self {
            State::Computed { state_content, .. } => state_content,
            State::Recompute { .. } => vstd::pervasive::unreached(),
        }
    }

    /// The retained output, by value. Only a computed state holds one.
    pub fn into_state_content(self) -> (r: StateContent)
        requires
            self is Computed,
        ensures
            r == self->state_content,
    {
        match self {
            State::Computed { state_content, .. } => state_content,
            State::Recompute { .. } => vstd::pervasive::unreached(),
        }
    }

    /// The number of times the state is still required.
    pub fn n_required(&self) -> (r: usize)
        ensures
            r == self.count(),
    {
        match self {
            State::Recompute { n_required } => *n_required,
            State::Computed { n_required, .. } => *n_required,
        }
    }

    pub fn increment(&mut self)
        requires
            old(self).count() < usize::MAX,
        ensures
            *final(self) == old(self).with_count((old(self).count() + 1) as usize),
    {
        match self {
            State::Recompute { n_required } => *n_required += 1,
            State::Computed { n_required, .. } => *n_required += 1,
        }
    }

    /// Adds the uses of `other`, a state of the same node and kind.
    pub fn merge(&mut self, other: State)
        requires
            old(self).can_merge(other),
        ensures
            *final(self) == old(self).merged(other),
    {
        let n = other.n_required();
        match self {
            State::Recompute { n_required } => *n_required += n,
            State::Computed { n_required, .. } => *n_required += n,
        }
    }
}

} // verus!
