//! Per-file indexing and the search over every file. Each file's shards are
//! built from that file's declarations alone; a query is evaluated against
//! each file and the results are concatenated.
use vstd::prelude::*;
use crate::fnmap::{table_of, FnSigMap};
use crate::matching::{locs_view, matching_enums};
use crate::model::{EnumDef, FnShape, FnSignature, Item, Loc, StructDef};
use crate::structmap::{matching_records, record_matches, StructDefMap};

verus! {

/// The functions among the declarations, in order.
pub open spec fn fn_decls(decls: Seq<(Loc, Item)>) -> Seq<(Loc, FnSignature)>
    decreases decls.len(),
{
    if decls.len() == 0 {
        Seq::empty()
    } else {
        let prev = fn_decls(decls.drop_last());
        match decls.last().1 {
            Item::FnSignature(f) => prev.push((decls.last().0, f)),
            _ => prev,
        }
    }
}

/// The records among the declarations, in order.
pub open spec fn struct_decls(decls: Seq<(Loc, Item)>) -> Seq<(Loc, StructDef)>
    decreases decls.len(),
{
    if decls.len() == 0 {
        Seq::empty()
    } else {
        let prev = struct_decls(decls.drop_last());
        match decls.last().1 {
            Item::StructDef(d) => prev.push((decls.last().0, d)),
            _ => prev,
        }
    }
}

/// The unions among the declarations, in order.
pub open spec fn enum_decls(decls: Seq<(Loc, Item)>) -> Seq<(Loc, EnumDef)>
    decreases decls.len(),
{
    if decls.len() == 0 {
        Seq::empty()
    } else {
        let prev = enum_decls(decls.drop_last());
        match decls.last().1 {
            Item::EnumDef(e) => prev.push((decls.last().0, e)),
            _ => prev,
        }
    }
}

/// The shards of one file.
pub struct FileIndex {
    pub fns: FnSigMap,
    pub structs: StructDefMap,
    pub enums: Vec<(Loc, EnumDef)>,
}

impl FileIndex {
    pub open spec fn wf(&self) -> bool {
        self.fns.wf() && self.structs.wf()
    }

    /// Builds the shards of one file from its declarations, in the order
    /// they appear in the file.
    pub fn build(decls: Vec<(Loc, Item)>) -> (r: FileIndex)
        ensures
            r.wf(),
            r.fns.table() == table_of(fn_decls(decls@)),
            r.structs.records() == struct_decls(decls@),
            r.enums@ == enum_decls(decls@),
    {
        let ghost d = decls@;
        let n0 = decls.len();
        let mut fns: Vec<(Loc, FnSignature)> = Vec::new();
        let mut structs = StructDefMap::new(n0);
        let mut enums: Vec<(Loc, EnumDef)> = Vec::new();
        let mut rest = decls;
        let mut i: usize = 0;
        while rest.len() > 0
            invariant
                n0 == d.len(),
                i <= d.len(),
                rest@ == d.skip(i as int),
                structs.wf(),
                fns@ == fn_decls(d.take(i as int)),
                structs.records() == struct_decls(d.take(i as int)),
                enums@ == enum_decls(d.take(i as int)),
                structs.records().len() <= i,
            decreases rest@.len(),
        {
            let (loc, item) = rest.remove(0);
            proof {
                assert(d.take(i + 1).drop_last() =~= d.take(i as int));
                assert(d[i as int] == (loc, item));
                assert(rest@ =~= d.skip(i + 1));
            }
            match item {
                Item::FnSignature(f) => fns.push((loc, f)),
                Item::StructDef(s) => structs.insert(s, loc),
                Item::EnumDef(e) => enums.push((loc, e)),
            }
            i += 1;
        }
        assert(d.take(i as int) =~= d);
        structs.finalize();
        FileIndex { fns: FnSigMap::from_decls(fns), structs, enums }
    }
}

/// What a query finds in one file.
pub open spec fn file_result(f: FileIndex, q: Item) -> Seq<(Seq<char>, usize, usize)> {
    match q {
        Item::FnSignature(s) => if f.fns.table().contains_key(s.shape()) {
            seq![f.fns.table()[s.shape()]]
        } else {
            Seq::empty()
        },
        Item::StructDef(s) => matching_records(f.structs.records(), |d: StructDef| record_matches(s, d)),
        Item::EnumDef(e) => matching_enums(e, f.enums@),
    }
}

/// What a query finds in the files, file after file.
pub open spec fn all_results(files: Seq<FileIndex>, q: Item) -> Seq<(Seq<char>, usize, usize)>
    decreases files.len(),
{
    if files.len() == 0 {
        Seq::empty()
    } else {
        all_results(files.drop_last(), q) + file_result(files.last(), q)
    }
}

/// The locations that the query finds in one file.
pub fn search_file(file: &FileIndex, query: &Item) -> (r: Vec<Loc>)
    requires
        file.wf(),
    ensures
        locs_view(r@) == file_result(*file, *query),
{
    match query {
        Item::FnSignature(s) => {
            let mut out: Vec<Loc> = Vec::new();
            match file.fns.get(s) {
                Some(l) => {
                    out.push(l.duplicate());
                },
                None => {},
            }
            assert(locs_view(out@) =~= file_result(*file, *query));
            out
        },
        Item::StructDef(s) => file.structs.search(s),
        Item::EnumDef(e) => EnumDef::search_enum_def(e, &file.enums),
    }
}

/// The locations that the query finds in all files: each file's results in
/// turn. No query fails here; no match gives an empty list.
pub fn search(files: &Vec<FileIndex>, query: &Item) -> (r: Vec<Loc>)
    requires
        forall|i: int| 0 <= i < files@.len() ==> (#[trigger] files@[i]).wf(),
    ensures
        locs_view(r@) == all_results(files@, *query),
{
    let mut out: Vec<Loc> = Vec::new();
    let mut i: usize = 0;
    while i < files.len()
        invariant
            i <= files@.len(),
            forall|i: int| 0 <= i < files@.len() ==> (#[trigger] files@[i]).wf(),
            locs_view(out@) == all_results(files@.take(i as int), *query),
        decreases files@.len() - i,
    {
        assert(files@.take(i + 1).drop_last() =~= files@.take(i as int));
        let mut found = search_file(&files[i], query);
        let ghost before = locs_view(out@);
        let ghost add = locs_view(found@);
        out.append(&mut found);
        assert(locs_view(out@) =~= before + add);
        i += 1;
    }
    assert(files@.take(i as int) =~= files@);
    out
}

/// With no files, nothing is found.
pub proof fn lemma_empty_corpus(q: Item)
    ensures
        all_results(Seq::empty(), q) == Seq::<(Seq<char>, usize, usize)>::empty(),
{
}

/// When no file holds a match, the search finds nothing.
pub proof fn lemma_no_match_no_results(files: Seq<FileIndex>, q: Item)
    requires
        forall|i: int| 0 <= i < files.len() ==> (#[trigger] file_result(files[i], q)).len() == 0,
    ensures
        all_results(files, q).len() == 0,
    decreases files.len(),
{
    if files.len() > 0 {
        let p = files.drop_last();
        assert forall|i: int| 0 <= i < p.len() implies (#[trigger] file_result(p[i], q)).len() == 0 by {
            assert(p[i] == files[i]);
        }
        lemma_no_match_no_results(p, q);
        assert(file_result(files[files.len() - 1], q).len() == 0);
    }
}

/// The declaration is a function of shape `k`.
pub open spec fn fn_of_shape(it: Item, k: FnShape) -> bool {
    match it {
        Item::FnSignature(g) => g.shape() == k,
        _ => false,
    }
}

/// When a file declares functions of the query's shape, the function query
/// finds exactly one location in that file: the last such declaration's.
/// `file` is any index whose function table is the one that
/// `FileIndex::build` gives for `decls`.
pub proof fn lemma_file_keeps_later_declaration(decls: Seq<(Loc, Item)>, j: int, q: FnSignature, file: FileIndex)
    requires
        0 <= j < decls.len(),
        fn_of_shape(decls[j].1, q.shape()),
        forall|k: int| j < k < decls.len() ==> !fn_of_shape(#[trigger] decls[k].1, q.shape()),
        file.fns.table() == table_of(fn_decls(decls)),
    ensures
        file_result(file, Item::FnSignature(q)) == seq![decls[j].0@],
{
    lemma_table_keeps_later(decls, j, q.shape());
}

proof fn lemma_table_keeps_later(decls: Seq<(Loc, Item)>, j: int, k: FnShape)
    requires
        0 <= j < decls.len(),
        fn_of_shape(decls[j].1, k),
        forall|x: int| j < x < decls.len() ==> !fn_of_shape(#[trigger] decls[x].1, k),
    ensures
        table_of(fn_decls(decls)).contains_key(k),
        table_of(fn_decls(decls))[k] == decls[j].0@,
    decreases decls.len(),
{
    let p = decls.drop_last();
    let fp = fn_decls(p);
    match decls.last().1 {
        Item::FnSignature(g) => {
            let e = (decls.last().0, g);
            assert(fn_decls(decls) == fp.push(e));
            assert(fp.push(e).drop_last() =~= fp);
            assert(table_of(fp.push(e)) == table_of(fp).insert(g.shape(), decls.last().0@));
            if j < decls.len() - 1 {
                assert(!fn_of_shape(decls[decls.len() - 1].1, k));
                assert forall|x: int| j < x < p.len() implies !fn_of_shape(#[trigger] p[x].1, k) by {
                    assert(p[x] == decls[x]);
                }
                assert(p[j] == decls[j]);
                lemma_table_keeps_later(p, j, k);
            }
        },
        _ => {
            assert(fn_decls(decls) == fp);
            assert(j < decls.len() - 1);
            assert forall|x: int| j < x < p.len() implies !fn_of_shape(#[trigger] p[x].1, k) by {
                assert(p[x] == decls[x]);
            }
            assert(p[j] == decls[j]);
            lemma_table_keeps_later(p, j, k);
        },
    }
}

} // verus!
