//! Finding a path among many.

use vstd::prelude::*;

use crate::fsops::local::{
    bytes_precede, lemma_bytes_antisymmetric, lemma_bytes_total, lemma_bytes_transitive, models,
    precedes,
};
use crate::order::{in_order, sort, Ranked};
use crate::path::{parent_directory, this_directory, PathBuf, PathModel, DOT};

verus! {

/// `.` comes before `..`, and both before every other name.
pub open spec fn name_rank(name: Seq<u8>) -> int {
    if name == this_directory() {
        0
    } else if name == parent_directory() {
        1
    } else {
        2
    }
}

/// Whether one name comes before another or is the same.
pub open spec fn name_precedes(left: Seq<u8>, right: Seq<u8>) -> bool {
    name_rank(left) < name_rank(right) || (name_rank(left) == name_rank(right) && bytes_precede(
        left,
        right,
    ))
}

/// Whether one list of names comes before another, name by name, a prefix
/// first.
pub open spec fn names_precede(left: Seq<Seq<u8>>, right: Seq<Seq<u8>>) -> bool
    decreases left.len(),
{
    left.len() == 0 || (right.len() > 0 && name_precedes(left[0], right[0]) && (left[0] != right[0]
        || names_precede(left.drop_first(), right.drop_first())))
}

/// Whether one path comes before another or is the same: the empty path first,
/// then what begins at the root, then name by name.
pub open spec fn path_precedes(left: PathModel, right: PathModel) -> bool {
    left.is_empty() || (!right.is_empty() && ((left.absolute && !right.absolute) || (left.absolute
        == right.absolute && names_precede(left.names, right.names))))
}

proof fn lemma_names_total(left: Seq<Seq<u8>>, right: Seq<Seq<u8>>)
    ensures
        names_precede(left, right) || names_precede(right, left),
    decreases left.len(),
{
    if left.len() > 0 && right.len() > 0 {
        if left[0] == right[0] {
            lemma_bytes_total(left[0], right[0]);
            lemma_names_total(left.drop_first(), right.drop_first());
        } else {
            lemma_bytes_total(left[0], right[0]);
        }
    }
}

proof fn lemma_name_antisymmetric(left: Seq<u8>, right: Seq<u8>)
    requires
        name_precedes(left, right),
        name_precedes(right, left),
    ensures
        left == right,
{
    lemma_bytes_antisymmetric(left, right);
}

proof fn lemma_names_transitive(first: Seq<Seq<u8>>, middle: Seq<Seq<u8>>, last: Seq<Seq<u8>>)
    requires
        names_precede(first, middle),
        names_precede(middle, last),
    ensures
        names_precede(first, last),
    decreases first.len(),
{
    if first.len() > 0 {
        if name_rank(first[0]) == name_rank(middle[0]) && name_rank(middle[0]) == name_rank(
            last[0],
        ) {
            lemma_bytes_transitive(first[0], middle[0], last[0]);
        }
        if first[0] == last[0] && first[0] != middle[0] {
            lemma_name_antisymmetric(first[0], middle[0]);
        }
        if first[0] == middle[0] && middle[0] == last[0] {
            lemma_names_transitive(first.drop_first(), middle.drop_first(), last.drop_first());
        }
    }
}

proof fn lemma_names_antisymmetric(left: Seq<Seq<u8>>, right: Seq<Seq<u8>>)
    requires
        names_precede(left, right),
        names_precede(right, left),
    ensures
        left == right,
    decreases left.len(),
{
    if left.len() > 0 && right.len() > 0 {
        lemma_name_antisymmetric(left[0], right[0]);
        lemma_names_antisymmetric(left.drop_first(), right.drop_first());
        assert(left =~= seq![left[0]] + left.drop_first());
        assert(right =~= seq![right[0]] + right.drop_first());
    } else {
        assert(left =~= right);
    }
}

/// Of two paths one comes first.
pub proof fn lemma_paths_total(left: PathModel, right: PathModel)
    ensures
        path_precedes(left, right) || path_precedes(right, left),
{
    lemma_names_total(left.names, right.names);
}

/// The order of paths is transitive.
pub proof fn lemma_paths_transitive(first: PathModel, middle: PathModel, last: PathModel)
    requires
        path_precedes(first, middle),
        path_precedes(middle, last),
    ensures
        path_precedes(first, last),
{
    if !first.is_empty() && first.absolute == middle.absolute && middle.absolute == last.absolute {
        lemma_names_transitive(first.names, middle.names, last.names);
    }
}

/// Two paths that may each stand before the other are the same.
pub proof fn lemma_paths_antisymmetric(left: PathModel, right: PathModel)
    requires
        path_precedes(left, right),
        path_precedes(right, left),
    ensures
        left == right,
{
    if left.is_empty() || right.is_empty() {
        assert(left.names =~= right.names);
    } else {
        lemma_names_antisymmetric(left.names, right.names);
    }
}

/// Whether one name comes before another or is the same.
fn name_may_precede(left: &[u8], right: &[u8]) -> (yes: bool)
    ensures
        yes == name_precedes(left@, right@),
{
    let left_rank: u8 = rank(left);
    let right_rank: u8 = rank(right);
    left_rank < right_rank || (left_rank == right_rank && precedes(left, right))
}

fn rank(name: &[u8]) -> (rank: u8)
    ensures
        rank as int == name_rank(name@),
{
    if name.len() == 1 && name[0] == DOT {
        assert(name@ =~= this_directory());
        0
    } else if name.len() == 2 && name[0] == DOT && name[1] == DOT {
        assert(name@ =~= parent_directory());
        1
    } else {
        2
    }
}

/// Whether one path comes before another or is the same.
pub fn path_may_precede(left: &PathBuf, right: &PathBuf) -> (yes: bool)
    ensures
        yes == path_precedes(left@, right@),
{
    let left_len: usize = left.name_count();
    let right_len: usize = right.name_count();
    let left_absolute = left.is_absolute();
    let right_absolute = right.is_absolute();
    if !left_absolute && left_len == 0 {
        return true;
    }
    if !right_absolute && right_len == 0 {
        return false;
    }
    if left_absolute != right_absolute {
        return left_absolute;
    }
    let mut i: usize = 0;
    proof {
        assert(left@.names.skip(0) =~= left@.names);
        assert(right@.names.skip(0) =~= right@.names);
    }
    while i < left_len
        invariant
            i <= left_len,
            i <= right_len,
            left_len == left@.names.len(),
            right_len == right@.names.len(),
            path_precedes(left@, right@) == names_precede(left@.names, right@.names),
            names_precede(left@.names, right@.names) == names_precede(
                left@.names.skip(i as int),
                right@.names.skip(i as int),
            ),
        decreases left_len - i,
    {
        let ghost left_rest = left@.names.skip(i as int);
        let ghost right_rest = right@.names.skip(i as int);
        if i >= right_len {
            return false;
        }
        let left_name = left.name_at(i);
        let right_name = right.name_at(i);
        proof {
            assert(left_rest[0] == left_name@);
            assert(right_rest[0] == right_name@);
            assert(left_rest.drop_first() =~= left@.names.skip(i + 1));
            assert(right_rest.drop_first() =~= right@.names.skip(i + 1));
        }
        if !name_may_precede(left_name, right_name) {
            return false;
        }
        if !name_may_precede(right_name, left_name) {
            return true;
        }
        proof {
            lemma_name_antisymmetric(left_name@, right_name@);
        }
        i += 1;
    }
    true
}

impl Ranked for PathBuf {
    open spec fn ranks(&self, other: &Self) -> bool {
        path_precedes(self@, other@)
    }

    proof fn ranks_total(&self, other: &Self) {
        lemma_paths_total(self@, other@);
    }

    proof fn ranks_transitive(&self, middle: &Self, last: &Self) {
        lemma_paths_transitive(self@, middle@, last@);
    }

    fn may_precede(&self, other: &Self) -> (yes: bool) {
        path_may_precede(self, other)
    }
}

/// A path and the place it has in some list.
#[derive(Debug)]
pub struct Place {
    pub path: PathBuf,
    pub position: usize,
}

impl Ranked for Place {
    open spec fn ranks(&self, other: &Self) -> bool {
        path_precedes(self.path@, other.path@) && (self.path@ != other.path@ || self.position
            <= other.position)
    }

    proof fn ranks_total(&self, other: &Self) {
        lemma_paths_total(self.path@, other.path@);
        if path_precedes(self.path@, other.path@) && path_precedes(other.path@, self.path@) {
            lemma_paths_antisymmetric(self.path@, other.path@);
        }
    }

    proof fn ranks_transitive(&self, middle: &Self, last: &Self) {
        lemma_paths_transitive(self.path@, middle.path@, last.path@);
        if self.path@ == last.path@ && self.path@ != middle.path@ {
            lemma_paths_antisymmetric(self.path@, middle.path@);
        }
    }

    fn may_precede(&self, other: &Self) -> (yes: bool) {
        if !path_may_precede(&self.path, &other.path) {
            return false;
        }
        if !path_may_precede(&other.path, &self.path) {
            assert(self.path@ != other.path@);
            return true;
        }
        proof {
            lemma_paths_antisymmetric(self.path@, other.path@);
        }
        self.position <= other.position
    }
}

/// A list of paths, arranged so that one can be found among many.
pub struct PathIndex {
    places: Vec<Place>,
    paths: Ghost<Seq<PathModel>>,
}

impl View for PathIndex {
    type V = Seq<PathModel>;

    closed spec fn view(&self) -> Seq<PathModel> {
        self.paths@
    }
}

/// Whether `places` says where each of `paths` stands, and nothing else.
pub open spec fn places_of(places: Seq<Place>, paths: Seq<PathModel>) -> bool {
    &&& forall|i: int|
        0 <= i < places.len() ==> (#[trigger] places[i]).position < paths.len()
            && paths[places[i].position as int] == places[i].path@
    &&& forall|k: int| 0 <= k < paths.len() ==> #[trigger] has_place(places, k)
}

/// Whether some place is at `position`.
pub open spec fn has_place(places: Seq<Place>, position: int) -> bool {
    exists|i: int| 0 <= i < places.len() && (#[trigger] places[i]).position == position
}

/// Whether `path` stands at `position` and nowhere after it.
pub open spec fn is_last_position(paths: Seq<PathModel>, path: PathModel, position: int) -> bool {
    &&& 0 <= position < paths.len()
    &&& paths[position] == path
    &&& forall|k: int| position < k < paths.len() ==> #[trigger] paths[k] != path
}

/// Whether one of the first `end` places says that `path` stands at
/// `position`.
spec fn stands_before(places: Seq<Place>, end: int, path: PathModel, position: int) -> bool {
    exists|i: int|
        0 <= i < end && (#[trigger] places[i]).position == position && places[i].path@ == path
}

impl PathIndex {
    #[verifier::type_invariant]
    spec fn well_formed(self) -> bool {
        places_of(self.places@, self.paths@) && in_order(self.places@)
    }

    /// Arranges a list of paths.
    pub fn new(paths: &[PathBuf]) -> (index: PathIndex)
        ensures
            index@ == paths@.map_values(|path: PathBuf| path@),
    {
        let mut places: Vec<Place> = Vec::new();
        let mut i: usize = 0;
        while i < paths.len()
            invariant
                i <= paths.len(),
                places@.len() == i,
                forall|k: int|
                    0 <= k < i ==> (#[trigger] places@[k]).position == k && places@[k].path@
                        == paths@[k]@,
            decreases paths.len() - i,
        {
            places.push(Place { path: paths[i].clone(), position: i });
            i += 1;
        }
        let ghost models = paths@.map_values(|path: PathBuf| path@);
        let ghost unordered = places@;
        let places = sort(places);
        proof {
            broadcast use vstd::seq_lib::group_to_multiset_ensures;

            assert forall|j: int| 0 <= j < places@.len() implies (#[trigger] places@[j]).position
                < models.len() && models[places@[j].position as int] == places@[j].path@ by {
                assert(places@.contains(places@[j]));
                assert(unordered.to_multiset().count(places@[j]) > 0);
                assert(unordered.contains(places@[j]));
                let k = choose|k: int| 0 <= k < unordered.len() && unordered[k] == places@[j];
                assert(models[k] == paths@[k]@);
            }
            assert forall|k: int| 0 <= k < models.len() implies #[trigger] has_place(
                places@,
                k,
            ) by {
                assert(unordered.contains(unordered[k]));
                assert(places@.to_multiset().count(unordered[k]) > 0);
                assert(places@.contains(unordered[k]));
                let j = choose|j: int| 0 <= j < places@.len() && places@[j] == unordered[k];
                assert(places@[j].position == k);
            }
        }
        PathIndex { places, paths: Ghost(models) }
    }

    /// Where `path` stands last in the list this was made from.
    pub fn find(&self, path: &PathBuf) -> (position: Option<usize>)
        ensures
            match position {
                Some(position) => is_last_position(self@, path@, position as int),
                None => forall|k: int| 0 <= k < self@.len() ==> #[trigger] self@[k] != path@,
            },
    {
        proof {
            use_type_invariant(self);
        }
        let ghost paths = self@;
        let mut low: usize = 0;
        let mut high: usize = self.places.len();
        while low < high
            invariant
                low <= high <= self.places@.len(),
                in_order(self.places@),
                forall|i: int|
                    0 <= i < low ==> path_precedes((#[trigger] self.places@[i]).path@, path@),
                forall|i: int|
                    high <= i < self.places@.len() ==> !path_precedes(
                        (#[trigger] self.places@[i]).path@,
                        path@,
                    ),
            decreases high - low,
        {
            let middle: usize = low + (high - low) / 2;
            if path_may_precede(&self.places[middle].path, path) {
                proof {
                    assert forall|i: int| 0 <= i < middle + 1 implies path_precedes(
                        (#[trigger] self.places@[i]).path@,
                        path@,
                    ) by {
                        if i < middle {
                            assert(self.places@[i].ranks(&self.places@[middle as int]));
                            lemma_paths_transitive(
                                self.places@[i].path@,
                                self.places@[middle as int].path@,
                                path@,
                            );
                        }
                    }
                }
                low = middle + 1;
            } else {
                proof {
                    assert forall|i: int| middle <= i < self.places@.len() implies !path_precedes(
                        (#[trigger] self.places@[i]).path@,
                        path@,
                    ) by {
                        if middle < i && path_precedes(self.places@[i].path@, path@) {
                            assert(self.places@[middle as int].ranks(&self.places@[i]));
                            lemma_paths_transitive(
                                self.places@[middle as int].path@,
                                self.places@[i].path@,
                                path@,
                            );
                        }
                    }
                }
                high = middle;
            }
        }
        proof {
            lemma_paths_total(path@, path@);
            assert forall|k: int| 0 <= k < paths.len() && #[trigger] paths[k]
                == path@ implies stands_before(self.places@, low as int, path@, k) by {
                assert(has_place(self.places@, k));
                let i = choose|i: int|
                    0 <= i < self.places@.len() && (#[trigger] self.places@[i]).position == k;
                assert(self.places@[i].path@ == path@);
                assert(i < low);
            }
        }
        if low == 0 {
            return None;
        }
        let last = &self.places[low - 1];
        if path_may_precede(path, &last.path) {
            proof {
                lemma_paths_antisymmetric(path@, last.path@);
                assert forall|k: int| last.position < k < paths.len() implies #[trigger] paths[k]
                    != path@ by {
                    if paths[k] == path@ {
                        assert(stands_before(self.places@, low as int, path@, k));
                        let i = choose|i: int|
                            0 <= i < low && (#[trigger] self.places@[i]).position == k
                                && self.places@[i].path@ == path@;
                        if i < low - 1 {
                            assert(self.places@[i].ranks(&self.places@[low - 1]));
                        }
                    }
                }
            }
            Some(last.position)
        } else {
            proof {
                assert forall|k: int| 0 <= k < paths.len() implies #[trigger] paths[k] != path@ by {
                    if paths[k] == path@ {
                        assert(stands_before(self.places@, low as int, path@, k));
                        let i = choose|i: int|
                            0 <= i < low && (#[trigger] self.places@[i]).position == k
                                && self.places@[i].path@ == path@;
                        if i < low - 1 {
                            assert(self.places@[i].ranks(&self.places@[low - 1]));
                        }
                        assert(path_precedes(path@, last.path@));
                    }
                }
            }
            None
        }
    }
}

/// Paths in order, each once.
pub fn sorted_distinct(paths: Vec<PathBuf>) -> (distinct: Vec<PathBuf>)
    ensures
        in_order(distinct@),
        models(distinct@).no_duplicates(),
        forall|path: PathModel| #[trigger]
            models(distinct@).contains(path) <==> models(paths@).contains(path),
{
    broadcast use vstd::seq_lib::group_to_multiset_ensures;

    let ghost all = paths@;
    let ordered = sort(paths);
    assert forall|path: PathModel| #[trigger] models(ordered@).contains(path) <==> models(
        all,
    ).contains(path) by {
        if models(ordered@).contains(path) {
            lemma_same_items(ordered@, all, path);
        }
        if models(all).contains(path) {
            lemma_same_items(all, ordered@, path);
        }
    }
    let mut distinct: Vec<PathBuf> = Vec::new();
    let mut i: usize = 0;
    while i < ordered.len()
        invariant
            i <= ordered@.len(),
            in_order(ordered@),
            in_order(distinct@),
            models(distinct@).no_duplicates(),
            distinct@.len() == 0 <==> i == 0,
            i > 0 ==> distinct@.last()@ == ordered@[i - 1]@,
            forall|k: int|
                0 <= k < distinct@.len() ==> exists|j: int|
                    0 <= j < i && (#[trigger] distinct@[k]) == #[trigger] ordered@[j],
            forall|j: int|
                0 <= j < i ==> models(distinct@).contains((#[trigger] ordered@[j])@),
        decreases ordered.len() - i,
    {
        let ghost before = distinct@;
        let again = distinct.len() > 0 && distinct[distinct.len() - 1].same(&ordered[i]);
        if again {
            proof {
                assert(models(before)[before.len() - 1] == ordered@[i as int]@);
                assert(models(distinct@).contains(ordered@[i as int]@));
            }
        } else {
            let ghost added = ordered@[i as int];
            distinct.push(ordered[i].clone());
            proof {
                assert(models(distinct@) =~= models(before).push(added@));
                assert forall|k: int| 0 <= k < before.len() implies before[k]@ != added@
                    && before[k].ranks(&added) by {
                    let j = choose|j: int| 0 <= j < i && before[k] == #[trigger] ordered@[j];
                    assert(ordered@[j].ranks(&ordered@[i as int]));
                    if before[k]@ == added@ {
                        // The last one kept lies between the two.
                        assert(ordered@[i - 1].ranks(&ordered@[i as int]));
                        if k < before.len() - 1 {
                            assert(before[k].ranks(&before[before.len() - 1]));
                        } else {
                            lemma_paths_total(added@, added@);
                        }
                        lemma_paths_antisymmetric(added@, ordered@[i - 1]@);
                    }
                }
                assert forall|a: int, b: int|
                    #![trigger distinct@[a], distinct@[b]]
                    0 <= a < b < distinct@.len() implies
                    distinct@[a].ranks(&distinct@[b]) by {
                    assert(distinct@[a] == before[a]);
                    if b < before.len() {
                        assert(distinct@[b] == before[b]);
                        assert(before[a].ranks(&before[b]));
                    }
                }
                assert(models(distinct@).no_duplicates()) by {
                    assert forall|a: int, b: int|
                        0 <= a < models(distinct@).len() && 0 <= b < models(distinct@).len() && a
                            != b implies models(distinct@)[a] != models(distinct@)[b] by {
                        if a < before.len() && b < before.len() {
                            assert(models(before)[a] != models(before)[b]);
                        }
                    }
                }
                assert forall|k: int| 0 <= k < distinct@.len() implies exists|j: int|
                    0 <= j < i + 1 && (#[trigger] distinct@[k]) == #[trigger] ordered@[j] by {
                    if k < before.len() {
                        assert(distinct@[k] == before[k]);
                    } else {
                        assert(distinct@[k] == ordered@[i as int]);
                    }
                }
                assert forall|j: int| 0 <= j < i + 1 implies models(distinct@).contains(
                    (#[trigger] ordered@[j])@,
                ) by {
                    if j < i {
                        let k = choose|k: int|
                            0 <= k < models(before).len() && models(before)[k] == ordered@[j]@;
                        assert(models(distinct@)[k] == ordered@[j]@);
                    } else {
                        assert(models(distinct@)[before.len() as int] == ordered@[j]@);
                    }
                }
            }
        }
        i += 1;
    }
    assert forall|path: PathModel| #[trigger] models(distinct@).contains(path) <==> models(
        ordered@,
    ).contains(path) by {
        if models(distinct@).contains(path) {
            let k = choose|k: int| 0 <= k < models(distinct@).len() && models(distinct@)[k] == path;
            assert(distinct@[k]@ == path);
            let j = choose|j: int|
                0 <= j < ordered@.len() && distinct@[k] == #[trigger] ordered@[j];
            assert(models(ordered@)[j] == path);
        }
        if models(ordered@).contains(path) {
            let j = choose|j: int| 0 <= j < models(ordered@).len() && models(ordered@)[j] == path;
            assert(ordered@[j]@ == path);
        }
    }
    distinct
}

proof fn lemma_same_items(left: Seq<PathBuf>, right: Seq<PathBuf>, path: PathModel)
    requires
        left.to_multiset() == right.to_multiset(),
        models(left).contains(path),
    ensures
        models(right).contains(path),
{
    broadcast use vstd::seq_lib::group_to_multiset_ensures;

    let i = choose|i: int| 0 <= i < models(left).len() && models(left)[i] == path;
    assert(left.contains(left[i]));
    assert(left.to_multiset().count(left[i]) > 0);
    assert(right.contains(left[i]));
    let j = choose|j: int| 0 <= j < right.len() && right[j] == left[i];
    assert(models(right)[j] == path);
}

} // verus!
