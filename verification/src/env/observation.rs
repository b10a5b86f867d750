//! What a policy gets to see: groups of numbers, and the order in which they are laid out.
use crate::text;
use vstd::prelude::*;

verus! {

/// A group of numbers that an observation can hold.
#[derive(Clone, Copy, Debug, PartialEq, Eq, Hash, Structural)]
pub enum ObservationKey {
    Bias,
    JointAngles,
    JointVelocities,
    BlockPosition,
    GoalPosition,
    BlockRelative,
    GoalRelative,
    BlockVelocity,
    BlockOrientation,
    BlockAngularVelocity,
    EpisodeTime,
    CommandVelocity,
}

/// The groups of an observation in their order, and the length of the observation.
#[derive(Debug, PartialEq, Eq)]
pub struct ObsLayout {
    pub keys: Vec<ObservationKey>,
    pub dim: usize,
}

/// The group that has the name `id`.
pub open spec fn key_named(id: Seq<char>) -> Option<ObservationKey> {
    if id == "bias"@ {
        Some(ObservationKey::Bias)
    } else if id == "jointAngles"@ {
        Some(ObservationKey::JointAngles)
    } else if id == "jointVelocities"@ {
        Some(ObservationKey::JointVelocities)
    } else if id == "blockPosition"@ {
        Some(ObservationKey::BlockPosition)
    } else if id == "goalPosition"@ {
        Some(ObservationKey::GoalPosition)
    } else if id == "blockRelative"@ {
        Some(ObservationKey::BlockRelative)
    } else if id == "goalRelative"@ {
        Some(ObservationKey::GoalRelative)
    } else if id == "blockVelocity"@ {
        Some(ObservationKey::BlockVelocity)
    } else if id == "blockOrientation"@ {
        Some(ObservationKey::BlockOrientation)
    } else if id == "blockAngularVelocity"@ {
        Some(ObservationKey::BlockAngularVelocity)
    } else if id == "episodeTime"@ {
        Some(ObservationKey::EpisodeTime)
    } else if id == "commandVelocity"@ {
        Some(ObservationKey::CommandVelocity)
    } else {
        None
    }
}

/// The number of values in the first `n` groups of `keys`.
pub open spec fn width(keys: Seq<ObservationKey>, n: nat) -> nat
    decreases n,
{
    if n == 0 {
        0
    } else {
        width(keys, (n - 1) as nat) + keys[n - 1].size()
    }
}

/// The groups that the first `n` names stand for, with empty names passed over, or the first name
/// that stands for none.
pub open spec fn keys_named(ids: Seq<Seq<char>>, n: nat) -> Result<Seq<ObservationKey>, Seq<char>>
    decreases n,
{
    if n == 0 {
        Ok(Seq::empty())
    } else {
        match keys_named(ids, (n - 1) as nat) {
            Err(id) => Err(id),
            Ok(keys) => if ids[n - 1].len() == 0 {
                Ok(keys)
            } else {
                match key_named(ids[n - 1]) {
                    Some(key) => Ok(keys.push(key)),
                    None => Err(ids[n - 1]),
                }
            },
        }
    }
}

/// The groups that a comma-separated list of names stands for, or the first unknown name.
pub open spec fn keys_listed(csv: Seq<char>) -> Result<Seq<ObservationKey>, Seq<char>> {
    let ids = text::fields_from(csv, 0);
    keys_named(ids, ids.len())
}

impl ObservationKey {
    /// The number of values in the group.
    pub open spec fn size(self) -> nat {
        match self {
            ObservationKey::Bias
            | ObservationKey::EpisodeTime
            | ObservationKey::BlockAngularVelocity => 1,
            _ => 2,
        }
    }

    /// The place of the group in the declaration.
    pub open spec fn place(self) -> int {
        match self {
            ObservationKey::Bias => 0,
            ObservationKey::JointAngles => 1,
            ObservationKey::JointVelocities => 2,
            ObservationKey::BlockPosition => 3,
            ObservationKey::GoalPosition => 4,
            ObservationKey::BlockRelative => 5,
            ObservationKey::GoalRelative => 6,
            ObservationKey::BlockVelocity => 7,
            ObservationKey::BlockOrientation => 8,
            ObservationKey::BlockAngularVelocity => 9,
            ObservationKey::EpisodeTime => 10,
            ObservationKey::CommandVelocity => 11,
        }
    }

    /// The number of values in the group.
    pub fn dims(self) -> (r: usize)
        ensures
            r == self.size(),
    {
        match self {
            ObservationKey::Bias
            | ObservationKey::EpisodeTime
            | ObservationKey::BlockAngularVelocity => 1,
            ObservationKey::JointAngles
            | ObservationKey::JointVelocities
            | ObservationKey::BlockPosition
            | ObservationKey::GoalPosition
            | ObservationKey::BlockRelative
            | ObservationKey::GoalRelative
            | ObservationKey::BlockVelocity
            | ObservationKey::BlockOrientation
            | ObservationKey::CommandVelocity => 2,
        }
    }

    /// The group that has the name `id`.
    pub fn parse(id: &str) -> (r: Option<Self>)
        ensures
            r == key_named(id@),
    {
        if text::same_text(id, "bias") {
            Some(ObservationKey::Bias)
        } else if text::same_text(id, "jointAngles") {
            Some(ObservationKey::JointAngles)
        } else if text::same_text(id, "jointVelocities") {
            Some(ObservationKey::JointVelocities)
        } else if text::same_text(id, "blockPosition") {
            Some(ObservationKey::BlockPosition)
        } else if text::same_text(id, "goalPosition") {
            Some(ObservationKey::GoalPosition)
        } else if text::same_text(id, "blockRelative") {
            Some(ObservationKey::BlockRelative)
        } else if text::same_text(id, "goalRelative") {
            Some(ObservationKey::GoalRelative)
        } else if text::same_text(id, "blockVelocity") {
            Some(ObservationKey::BlockVelocity)
        } else if text::same_text(id, "blockOrientation") {
            Some(ObservationKey::BlockOrientation)
        } else if text::same_text(id, "blockAngularVelocity") {
            Some(ObservationKey::BlockAngularVelocity)
        } else if text::same_text(id, "episodeTime") {
            Some(ObservationKey::EpisodeTime)
        } else if text::same_text(id, "commandVelocity") {
            Some(ObservationKey::CommandVelocity)
        } else {
            None
        }
    }
}

/// Groups that differ from each other are at most twelve.
pub proof fn lemma_few_keys(keys: Seq<ObservationKey>)
    requires
        keys.no_duplicates(),
    ensures
        keys.len() <= 12,
{
    let places = keys.map_values(|k: ObservationKey| k.place());
    assert(places.no_duplicates()) by {
        assert forall|i: int, j: int|
            0 <= i < places.len() && 0 <= j < places.len() && i != j implies places[i]
            != places[j] by {
            assert(keys[i] != keys[j]);
        }
    }
    let all = vstd::set_lib::set_int_range(0, 12);
    vstd::set_lib::lemma_int_range(0, 12);
    places.unique_seq_to_set();
    assert(places.to_set().subset_of(all)) by {
        assert forall|p: int| places.to_set().contains(p) implies all.contains(p) by {
            let i = choose|i: int| 0 <= i < places.len() && places[i] == p;
            assert(places[i] == keys[i].place());
        }
    }
    vstd::set_lib::lemma_len_subset(places.to_set(), all);
}

/// A group holds at most two values.
pub proof fn lemma_width(keys: Seq<ObservationKey>, n: nat)
    ensures
        n <= width(keys, n) <= 2 * n,
    decreases n,
{
    if n > 0 {
        lemma_width(keys, (n - 1) as nat);
    }
}

/// More groups do not have a smaller length.
pub proof fn lemma_width_monotone(keys: Seq<ObservationKey>, m: nat, n: nat)
    requires
        m <= n,
    ensures
        width(keys, m) <= width(keys, n),
    decreases n,
{
    if m < n {
        lemma_width_monotone(keys, m, (n - 1) as nat);
    }
}

/// Whether a group occurs twice.
fn repeats(keys: &[ObservationKey]) -> (r: bool)
    ensures
        r == !keys@.no_duplicates(),
{
    let n: usize = keys.len();
    for i in 0..n
        invariant
            n == keys@.len(),
            forall|a: int, b: int| 0 <= a < b < n && a < i ==> keys@[a] != keys@[b],
    {
        for j in i + 1..n
            invariant
                n == keys@.len(),
                i < n,
                forall|b: int| i < b < j ==> keys@[i as int] != keys@[b],
        {
            if keys[i] == keys[j] {
                return true;
            }
        }
    }
    false
}

impl Clone for ObsLayout {
    fn clone(&self) -> (r: Self)
        ensures
            r.keys@ == self.keys@,
            r.dim == self.dim,
    {
        ObsLayout { keys: vstd::slice::slice_to_vec(self.keys.as_slice()), dim: self.dim }
    }
}

impl ObsLayout {
    /// Whether the layout has a group, none twice, and the length that its groups add up to.
    pub open spec fn wf(&self) -> bool {
        &&& self.keys@.len() > 0
        &&& self.keys@.no_duplicates()
        &&& self.dim == width(self.keys@, self.keys@.len())
    }

    /// The layout of the groups `keys`.
    pub fn from_keys(keys: &[ObservationKey]) -> (r: Self)
        requires
            keys@.len() > 0,
            keys@.no_duplicates(),
        ensures
            r.wf(),
            r.keys@ == keys@,
    {
        let n: usize = keys.len();
        let mut dim: usize = 0;
        proof {
            lemma_few_keys(keys@);
        }
        for i in 0..n
            invariant
                n == keys@.len() <= 12,
                dim == width(keys@, i as nat),
        {
            proof {
                lemma_width(keys@, i as nat);
            }
            dim = dim + keys[i].dims();
        }
        ObsLayout { keys: vstd::slice::slice_to_vec(keys), dim }
    }

    /// The groups that a comma-separated list of names stands for, or a message that names the
    /// first unknown one.
    fn read_keys(csv: &str) -> (r: Result<Vec<ObservationKey>, String>)
        ensures
            match r {
                Ok(keys) => keys_listed(csv@) == Ok::<Seq<ObservationKey>, Seq<char>>(keys@),
                Err(e) => keys_listed(csv@) is Err && e@ == "unknown observation key: "@
                    + keys_listed(csv@)->Err_0,
            },
    {
        let ids: Vec<String> = text::split_commas(csv);
        let n: usize = ids.len();
        let mut keys: Vec<ObservationKey> = Vec::new();
        let ghost names = text::fields_from(csv@, 0);
        for i in 0..n
            invariant
                n == ids@.len() == names.len(),
                names == text::fields_from(csv@, 0),
                forall|k: int| 0 <= k < n ==> (#[trigger] ids@[k])@ == names[k],
                keys_named(names, i as nat) == Ok::<Seq<ObservationKey>, Seq<char>>(keys@),
        {
            let id: &str = ids[i].as_str();
            if !id.is_empty() {
                match ObservationKey::parse(id) {
                    Some(key) => keys.push(key),
                    None => {
                        proof {
                            lemma_named_fails(names, (i + 1) as nat, n as nat);
                        }
                        return Err(text::joined("unknown observation key: ", id));
                    },
                }
            }
        }
        Ok(keys)
    }

    /// Whether a list of known names holds one of them twice.
    pub fn repeats_key(csv: &str) -> (r: bool)
        ensures
            r == (keys_listed(csv@) matches Ok(keys) && !keys.no_duplicates()),
    {
        match Self::read_keys(csv) {
            Ok(keys) => repeats(keys.as_slice()),
            Err(_) => false,
        }
    }

    /// The layout that a comma-separated list of names stands for. Empty names are passed over.
    pub fn from_csv(csv: &str) -> (r: Result<Self, String>)
        requires
            keys_listed(csv@) matches Ok(keys) ==> keys.no_duplicates(),
        ensures
            match keys_listed(csv@) {
                Err(id) => r matches Err(e) && e@ == "unknown observation key: "@ + id,
                Ok(keys) => if keys.len() == 0 {
                    r matches Err(e) && e@ == "observation selection is empty"@
                } else {
                    r matches Ok(layout) && layout.wf() && layout.keys@ == keys
                },
            },
    {
        match Self::read_keys(csv) {
            Err(e) => Err(e),
            Ok(keys) => {
                if keys.len() == 0 {
                    return Err("observation selection is empty".to_owned());
                }
                Ok(Self::from_keys(keys.as_slice()))
            },
        }
    }
}

/// An unknown name stays the first one, whatever follows.
proof fn lemma_named_fails(ids: Seq<Seq<char>>, m: nat, n: nat)
    requires
        m <= n,
        keys_named(ids, m) is Err,
    ensures
        keys_named(ids, n) == keys_named(ids, m),
    decreases n,
{
    if m < n {
        lemma_named_fails(ids, m, (n - 1) as nat);
    }
}

/// The groups that are laid out by default.
pub open spec fn default_keys() -> Seq<ObservationKey> {
    seq![
        ObservationKey::JointAngles,
        ObservationKey::JointVelocities,
        ObservationKey::BlockPosition,
        ObservationKey::GoalPosition,
        ObservationKey::BlockRelative,
        ObservationKey::GoalRelative,
        ObservationKey::BlockVelocity,
        ObservationKey::BlockAngularVelocity,
        ObservationKey::EpisodeTime,
    ]
}

impl Default for ObsLayout {
    /// The layout of sixteen values.
    fn default() -> (r: Self)
        ensures
            r.wf(),
            r.keys@ == default_keys(),
            r.dim == 16,
    {
        let keys: [ObservationKey; 9] = [
            ObservationKey::JointAngles,
            ObservationKey::JointVelocities,
            ObservationKey::BlockPosition,
            ObservationKey::GoalPosition,
            ObservationKey::BlockRelative,
            ObservationKey::GoalRelative,
            ObservationKey::BlockVelocity,
            ObservationKey::BlockAngularVelocity,
            ObservationKey::EpisodeTime,
        ];
        assert(keys@ =~= default_keys());
        assert(keys@.no_duplicates()) by {
            assert(forall|i: int|
                0 <= i < 9 ==> (#[trigger] keys@[i]).place() == (if i < 7 {
                    if i < 6 {
                        i + 1
                    } else {
                        7
                    }
                } else {
                    i + 2
                }));
        }
        assert(width(keys@, 9) == 16) by {
            reveal_with_fuel(width, 10);
        }
        Self::from_keys(keys.as_slice())
    }
}

} // verus!
