//! Queries as a status request states them: one facet each for the index,
//! the kind and the status of a task, where `*` stands for any value.

use vstd::prelude::*;
use vstd::string::{StrSliceExecFns, StringExecFns};
use crate::filter::{admits, lemma_push_to_set, option_filter_view, TaskFilter, TaskPredicate};
use crate::task::{strings_view, TaskStatus, TaskType, TaskView};

verus! {

/// A value of a facet: the wildcard, or a concrete value.
#[derive(Debug, PartialEq, Eq)]
pub enum StarOr<T> {
    Star,
    Other(T),
}

/// Whether one of the values of a facet is the wildcard.
pub open spec fn has_star<T>(values: Seq<StarOr<T>>) -> bool {
    exists|k: int| 0 <= k < values.len() && (#[trigger] values[k]) is Star
}

/// The concrete values of a facet without a wildcard, in their order.
pub open spec fn concrete_values<T>(values: Seq<StarOr<T>>) -> Seq<T> {
    values.map_values(|v: StarOr<T>| v->Other_0)
}

/// Folds the values of a facet: nothing where one of them is the wildcard,
/// so that the facet constrains nothing, and else the concrete values.
pub fn fold_star_or<T>(content: Vec<StarOr<T>>) -> (r: Option<Vec<T>>)
    ensures
        r is None <==> has_star(content@),
        r matches Some(v) ==> v@ == concrete_values(content@),
{
    let mut out: Vec<T> = Vec::new();
    let ghost all = content@;
    for value in it: content
        invariant
            it.seq() == all,
            forall|k: int| 0 <= k < it.index() ==> !((#[trigger] all[k]) is Star),
            out@ == concrete_values(all.subrange(0, it.index() as int)),
    {
        let ghost i = it.index() as int;
        match value {
            StarOr::Star => {
                assert(all[i] is Star);
                return None;
            },
            StarOr::Other(v) => {
                assert(out@.push(v) =~= concrete_values(all.subrange(0, i + 1)));
                out.push(v);
            },
        }
    }
    assert(all.subrange(0, all.len() as int) =~= all);
    Some(out)
}

/// What a status request asks for, facet by facet. A facet that is absent
/// constrains nothing.
#[derive(Debug, PartialEq, Eq)]
pub struct TaskQuery {
    pub index_uids: Option<Vec<StarOr<String>>>,
    pub types: Option<Vec<StarOr<TaskType>>>,
    pub statuses: Option<Vec<StarOr<TaskStatus>>>,
}

/// Whether a facet leaves its value open: it is absent, or one of its values
/// is the wildcard.
pub open spec fn facet_open<T>(facet: Option<Vec<StarOr<T>>>) -> bool {
    match facet {
        Some(values) => has_star(values@),
        None => true,
    }
}

impl TaskQuery {
    /// Whether the index facet allows an index: it is open, names no index
    /// at all, or names this one.
    pub open spec fn allows_index(self, uid: Seq<char>) -> bool {
        facet_open(self.index_uids) || {
            let names = strings_view(concrete_values(self.index_uids->0@));
            names.len() == 0 || names.contains(uid)
        }
    }

    /// Whether the kind facet allows a kind: it is open, or names this one.
    pub open spec fn allows_type(self, kind: TaskType) -> bool {
        facet_open(self.types) || concrete_values(self.types->0@).contains(kind)
    }

    /// Whether the status facet allows a status: it is open, or names this one.
    pub open spec fn allows_status(self, status: TaskStatus) -> bool {
        facet_open(self.statuses) || concrete_values(self.statuses->0@).contains(status)
    }

    /// Whether every facet is open, so that the query asks for every task.
    pub open spec fn asks_for_all(self) -> bool {
        facet_open(self.index_uids) && facet_open(self.types) && facet_open(self.statuses)
    }

    /// The tasks that the query asks for: every task where all facets are
    /// open, and else the tasks that target an index and that each facet
    /// allows.
    pub open spec fn matches(self, task: TaskView) -> bool {
        self.asks_for_all() || {
            &&& task.index_uid() matches Some(uid)
            &&& self.allows_index(uid)
            &&& self.allows_type(task.task_type())
            &&& self.allows_status(task.status())
        }
    }

    /// Reads a query from the lists that a request gives for its facets.
    /// A kind that does not exist fails the request, and else a status
    /// that does not exist.
    pub fn parse(index_uid: Option<&str>, task_type: Option<&str>, status: Option<&str>) -> (r:
        Result<TaskQuery, QueryError>)
        ensures
            match r {
                Ok(query) => {
                    &&& match index_uid {
                        Some(list) => query.index_uids is Some && index_facet_of(
                            query.index_uids->0@,
                            list@,
                        ),
                        None => query.index_uids is None,
                    }
                    &&& match task_type {
                        Some(list) => query.types is Some && type_facet_of(
                            query.types->0@,
                            list@,
                        ),
                        None => query.types is None,
                    }
                    &&& match status {
                        Some(list) => query.statuses is Some && status_facet_of(
                            query.statuses->0@,
                            list@,
                        ),
                        None => query.statuses is None,
                    }
                },
                Err(QueryError::UnknownType(piece)) => task_type is Some && exists|k: int|
                    first_rejected(
                        split_commas(task_type->0@),
                        |p: Seq<char>| spells_type(p),
                        k,
                    ) && #[trigger] split_commas(task_type->0@)[k] == piece@,
                Err(QueryError::UnknownStatus(piece)) => status is Some && exists|k: int|
                    first_rejected(
                        split_commas(status->0@),
                        |p: Seq<char>| spells_status(p),
                        k,
                    ) && #[trigger] split_commas(status->0@)[k] == piece@,
            },
            r is Ok <==> (task_type matches Some(list) ==> forall|k: int|
                0 <= k < split_commas(list@).len() ==> spells_type(
                    #[trigger] split_commas(list@)[k],
                )) && (status matches Some(list) ==> forall|k: int|
                0 <= k < split_commas(list@).len() ==> spells_status(
                    #[trigger] split_commas(list@)[k],
                )),
    {
        let types = match task_type {
            Some(list) => match parse_type_facet(list) {
                Ok(facet) => Some(facet),
                Err(e) => {
                    return Err(e);
                },
            },
            None => None,
        };
        let statuses = match status {
            Some(list) => match parse_status_facet(list) {
                Ok(facet) => Some(facet),
                Err(e) => {
                    return Err(e);
                },
            },
            None => None,
        };
        let index_uids = match index_uid {
            Some(list) => Some(parse_index_facet(list)),
            None => None,
        };
        Ok(TaskQuery { index_uids, types, statuses })
    }

    /// The filter that lets through exactly the tasks that the query asks
    /// for; no filter where the query asks for every task.
    pub fn into_filter(self) -> (r: Option<TaskFilter>)
        ensures
            r is None <==> self.asks_for_all(),
            forall|task: TaskView| admits(option_filter_view(r), task) == self.matches(task),
    {
        let TaskQuery { index_uids, types, statuses } = self;
        let names = match index_uids {
            Some(values) => fold_star_or(values),
            None => None,
        };
        let types = match types {
            Some(values) => fold_star_or(values),
            None => None,
        };
        let statuses = match statuses {
            Some(values) => fold_star_or(values),
            None => None,
        };
        let filter = match names {
            Some(names) => Some(index_filter(names)),
            None => None,
        };
        match (statuses, types) {
            (Some(statuses), Some(types)) => {
                let mut filter = filter.unwrap_or_default();
                filter.filter_fn(TaskPredicate::StatusAndTypeIn(statuses, types));
                Some(filter)
            },
            (Some(statuses), None) => {
                let mut filter = filter.unwrap_or_default();
                filter.filter_fn(TaskPredicate::StatusIn(statuses));
                Some(filter)
            },
            (None, Some(types)) => {
                let mut filter = filter.unwrap_or_default();
                filter.filter_fn(TaskPredicate::TypeIn(types));
                Some(filter)
            },
            (None, None) => filter,
        }
    }
}

/// The filter that allows the named indexes, and every index where none is
/// named.
fn index_filter(names: Vec<String>) -> (r: TaskFilter)
    ensures
        r@.predicate is None,
        r@.indexes == if names@.len() == 0 {
            None
        } else {
            Some(strings_view(names@).to_set())
        },
{
    let mut filter = TaskFilter::default();
    let ghost all = names@;
    for name in it: names
        invariant
            it.seq() == all,
            filter@.predicate is None,
            filter@.indexes == if it.index() == 0 {
                None
            } else {
                Some(strings_view(all.subrange(0, it.index() as int)).to_set())
            },
    {
        let ghost i = it.index() as int;
        proof {
            let before = strings_view(all.subrange(0, i));
            assert(strings_view(all.subrange(0, i + 1)) =~= before.push(name@));
            lemma_push_to_set(before, name@);
            if i == 0 {
                assert(before.to_set() =~= Set::<Seq<char>>::empty());
            }
        }
        filter.filter_index(name);
    }
    assert(all.subrange(0, all.len() as int) =~= all);
    filter
}

/// Whether a facet is another one with the wildcard taken into account: the
/// same facet, or no facet at all where the other has a wildcard.
pub open spec fn facet_folded<T>(given: Option<Vec<StarOr<T>>>, folded: Option<Vec<StarOr<T>>>) -> bool {
    folded == given || (folded is None && given is Some && has_star(given->0@))
}

/// A facet with a wildcard allows every value, whatever else it names.
pub proof fn lemma_star_allows_everything(query: TaskQuery)
    ensures
        query.index_uids is Some && has_star(query.index_uids->0@) ==> forall|uid: Seq<char>|
            query.allows_index(uid),
        query.types is Some && has_star(query.types->0@) ==> forall|kind: TaskType|
            query.allows_type(kind),
        query.statuses is Some && has_star(query.statuses->0@) ==> forall|status: TaskStatus|
            query.allows_status(status),
{
}

/// A facet with a wildcard is as good as no facet: a query asks for the
/// same tasks when such facets are left out. Where each facet has a
/// wildcard the query asks for every task.
pub proof fn lemma_star_is_any(given: TaskQuery, folded: TaskQuery, task: TaskView)
    requires
        facet_folded(given.index_uids, folded.index_uids),
        facet_folded(given.types, folded.types),
        facet_folded(given.statuses, folded.statuses),
    ensures
        given.matches(task) == folded.matches(task),
        folded.index_uids is None && folded.types is None && folded.statuses is None
            ==> given.matches(task),
{
}

/// The pieces of a list between its commas, in their order. A list without
/// a comma is one piece, and so is the empty list.
pub open spec fn split_commas(list: Seq<char>) -> Seq<Seq<char>>
    decreases list.len(),
{
    if list.len() == 0 {
        seq![Seq::empty()]
    } else {
        let init = split_commas(list.drop_last());
        if list.last() == ',' {
            init.push(Seq::empty())
        } else {
            init.drop_last().push(init.last().push(list.last()))
        }
    }
}

/// A list always has a piece.
pub proof fn lemma_split_commas_nonempty(list: Seq<char>)
    ensures
        split_commas(list).len() > 0,
    decreases list.len(),
{
    if list.len() > 0 {
        lemma_split_commas_nonempty(list.drop_last());
    }
}

/// Splits a list at its commas.
pub fn split_at_commas(list: &str) -> (r: Vec<String>)
    ensures
        strings_view(r@) == split_commas(list@),
{
    let n = list.unicode_len();
    let mut out: Vec<String> = Vec::new();
    let mut start: usize = 0;
    let mut i: usize = 0;
    assert(list@.subrange(0, 0) =~= Seq::<char>::empty());
    assert(strings_view(out@).push(list@.subrange(0, 0)) =~= seq![Seq::<char>::empty()]);
    while i < n
        invariant
            n == list@.len(),
            0 <= start <= i <= n,
            split_commas(list@.subrange(0, i as int)) == strings_view(out@).push(
                list@.subrange(start as int, i as int),
            ),
        decreases n - i,
    {
        let c = list.get_char(i);
        let ghost before = list@.subrange(0, i as int);
        let ghost next = list@.subrange(0, i + 1);
        let ghost done = strings_view(out@);
        proof {
            assert(next.drop_last() =~= before);
            assert(next.last() == c);
            assert(done.push(list@.subrange(start as int, i as int)).drop_last() =~= done);
        }
        if c == ',' {
            let piece = list.substring_char(start, i);
            out.push(String::from_str(piece));
            start = i + 1;
            proof {
                assert(strings_view(out@) =~= done.push(piece@));
                assert(list@.subrange(i + 1, i + 1) =~= Seq::<char>::empty());
            }
        } else {
            assert(list@.subrange(start as int, i as int).push(c) =~= list@.subrange(
                start as int,
                i + 1,
            ));
        }
        i += 1;
    }
    let ghost done = strings_view(out@);
    let piece = list.substring_char(start, n);
    out.push(String::from_str(piece));
    assert(strings_view(out@) =~= done.push(piece@));
    assert(list@.subrange(0, n as int) =~= list@);
    out
}

/// A request that names a kind or a status that does not exist.
#[derive(Debug, PartialEq, Eq)]
pub enum QueryError {
    UnknownType(String),
    UnknownStatus(String),
}

/// Whether a piece of a list is the wildcard.
pub open spec fn is_star(piece: Seq<char>) -> bool {
    piece == seq!['*']
}

/// Whether a piece of a list spells a kind, or is the wildcard.
pub open spec fn spells_type(piece: Seq<char>) -> bool {
    is_star(piece) || exists|kind: TaskType| kind.name_of() == piece
}

/// Whether a piece of a list spells a status, or is the wildcard.
pub open spec fn spells_status(piece: Seq<char>) -> bool {
    is_star(piece) || exists|status: TaskStatus| status.name_of() == piece
}

/// Whether a value of the index facet is what a piece spells: the wildcard
/// for `*`, and else the index of that name.
pub open spec fn index_value_of(value: StarOr<String>, piece: Seq<char>) -> bool {
    if is_star(piece) {
        value is Star
    } else {
        value is Other && value->Other_0@ == piece
    }
}

/// Whether a value of the kind facet is what a piece spells: the wildcard
/// for `*`, and else the kind of that name.
pub open spec fn type_value_of(value: StarOr<TaskType>, piece: Seq<char>) -> bool {
    if is_star(piece) {
        value is Star
    } else {
        value is Other && value->Other_0.name_of() == piece
    }
}

/// Whether a value of the status facet is what a piece spells: the wildcard
/// for `*`, and else the status of that name.
pub open spec fn status_value_of(value: StarOr<TaskStatus>, piece: Seq<char>) -> bool {
    if is_star(piece) {
        value is Star
    } else {
        value is Other && value->Other_0.name_of() == piece
    }
}

/// Whether a facet holds, value by value, what the pieces of a list spell.
pub open spec fn index_facet_of(facet: Seq<StarOr<String>>, list: Seq<char>) -> bool {
    &&& facet.len() == split_commas(list).len()
    &&& forall|k: int|
        0 <= k < facet.len() ==> index_value_of(#[trigger] facet[k], split_commas(list)[k])
}

/// Whether a facet holds, value by value, what the pieces of a list spell.
pub open spec fn type_facet_of(facet: Seq<StarOr<TaskType>>, list: Seq<char>) -> bool {
    &&& facet.len() == split_commas(list).len()
    &&& forall|k: int|
        0 <= k < facet.len() ==> type_value_of(#[trigger] facet[k], split_commas(list)[k])
}

/// Whether a facet holds, value by value, what the pieces of a list spell.
pub open spec fn status_facet_of(facet: Seq<StarOr<TaskStatus>>, list: Seq<char>) -> bool {
    &&& facet.len() == split_commas(list).len()
    &&& forall|k: int|
        0 <= k < facet.len() ==> status_value_of(#[trigger] facet[k], split_commas(list)[k])
}

/// Whether the piece at a place is the first that a condition rejects.
pub open spec fn first_rejected(
    pieces: Seq<Seq<char>>,
    accepted: spec_fn(Seq<char>) -> bool,
    k: int,
) -> bool {
    &&& 0 <= k < pieces.len()
    &&& !accepted(pieces[k])
    &&& forall|j: int| 0 <= j < k ==> accepted(#[trigger] pieces[j])
}

fn piece_is_star(piece: &String) -> (b: bool)
    ensures
        b == is_star(piece@),
{
    let s = piece.as_str();
    if s.unicode_len() == 1 {
        let c = s.get_char(0);
        assert(c == '*' ==> s@ =~= seq!['*']);
        c == '*'
    } else {
        false
    }
}

/// Reads the index facet of a request: a list of index names and wildcards,
/// separated by commas.
pub fn parse_index_facet(list: &str) -> (r: Vec<StarOr<String>>)
    ensures
        index_facet_of(r@, list@),
{
    let pieces = split_at_commas(list);
    let ghost all = strings_view(pieces@);
    let mut out: Vec<StarOr<String>> = Vec::new();
    for piece in it: pieces
        invariant
            strings_view(it.seq()) == all,
            out@.len() == it.index(),
            forall|k: int| 0 <= k < out@.len() ==> index_value_of(#[trigger] out@[k], all[k]),
    {
        assert(all[it.index() as int] == piece@);
        if piece_is_star(&piece) {
            out.push(StarOr::Star);
        } else {
            out.push(StarOr::Other(piece));
        }
    }
    out
}

/// Reads the kind facet of a request: a list of kinds and wildcards,
/// separated by commas. The first piece that spells neither fails it.
pub fn parse_type_facet(list: &str) -> (r: Result<Vec<StarOr<TaskType>>, QueryError>)
    ensures
        match r {
            Ok(facet) => type_facet_of(facet@, list@) && forall|k: int|
                0 <= k < split_commas(list@).len() ==> spells_type(
                    #[trigger] split_commas(list@)[k],
                ),
            Err(QueryError::UnknownType(piece)) => exists|k: int|
                first_rejected(split_commas(list@), |p: Seq<char>| spells_type(p), k)
                    && #[trigger] split_commas(list@)[k] == piece@,
            Err(_) => false,
        },
{
    let pieces = split_at_commas(list);
    let ghost all = strings_view(pieces@);
    let mut out: Vec<StarOr<TaskType>> = Vec::new();
    for piece in it: pieces
        invariant
            strings_view(it.seq()) == all,
            all == split_commas(list@),
            out@.len() == it.index(),
            forall|k: int| 0 <= k < out@.len() ==> type_value_of(#[trigger] out@[k], all[k]),
            forall|k: int| 0 <= k < out@.len() ==> spells_type(#[trigger] all[k]),
    {
        let ghost i = it.index() as int;
        assert(all[i] == piece@);
        if piece_is_star(&piece) {
            out.push(StarOr::Star);
        } else {
            match TaskType::from_name(piece.as_str()) {
                Some(kind) => {
                    out.push(StarOr::Other(kind));
                },
                None => {
                    assert(first_rejected(all, |p: Seq<char>| spells_type(p), i));
                    return Err(QueryError::UnknownType(piece));
                },
            }
        }
    }
    Ok(out)
}

/// Reads the status facet of a request: a list of statuses and wildcards,
/// separated by commas. The first piece that spells neither fails it.
pub fn parse_status_facet(list: &str) -> (r: Result<Vec<StarOr<TaskStatus>>, QueryError>)
    ensures
        match r {
            Ok(facet) => status_facet_of(facet@, list@) && forall|k: int|
                0 <= k < split_commas(list@).len() ==> spells_status(
                    #[trigger] split_commas(list@)[k],
                ),
            Err(QueryError::UnknownStatus(piece)) => exists|k: int|
                first_rejected(split_commas(list@), |p: Seq<char>| spells_status(p), k)
                    && #[trigger] split_commas(list@)[k] == piece@,
            Err(_) => false,
        },
{
    let pieces = split_at_commas(list);
    let ghost all = strings_view(pieces@);
    let mut out: Vec<StarOr<TaskStatus>> = Vec::new();
    for piece in it: pieces
        invariant
            strings_view(it.seq()) == all,
            all == split_commas(list@),
            out@.len() == it.index(),
            forall|k: int| 0 <= k < out@.len() ==> status_value_of(#[trigger] out@[k], all[k]),
            forall|k: int| 0 <= k < out@.len() ==> spells_status(#[trigger] all[k]),
    {
        let ghost i = it.index() as int;
        assert(all[i] == piece@);
        if piece_is_star(&piece) {
            out.push(StarOr::Star);
        } else {
            match TaskStatus::from_name(piece.as_str()) {
                Some(status) => {
                    out.push(StarOr::Other(status));
                },
                None => {
                    assert(first_rejected(all, |p: Seq<char>| spells_status(p), i));
                    return Err(QueryError::UnknownStatus(piece));
                },
            }
        }
    }
    Ok(out)
}

} // verus!
