//! Names of entities, folders and output files.
use vstd::prelude::*;
use vstd::string::*;
use crate::text::{nat_text, u64_text};
use crate::planner::{ChunkWindow, plan_windows, window_at, window_count};
use crate::config::LEDGER_CHUNK_ROWS;
use crate::dispatch::{digits_value, lemma_nat_text_value};

verus! {

/// The position of the first underscore of `s` at or after `i`, or the length
/// of `s` where there is none.
pub open spec fn next_underscore(s: Seq<char>, i: int) -> int
    decreases s.len() - i,
{
    if i >= s.len() {
        s.len() as int
    } else if s[i] == '_' {
        i
    } else {
        next_underscore(s, i + 1)
    }
}

/// The short name of an entity: the third underscore-delimited segment of its
/// full name, or the whole name where it has fewer than three segments.
pub open spec fn display_name_of(s: Seq<char>) -> Seq<char> {
    let first = next_underscore(s, 0);
    let second = next_underscore(s, first + 1);
    if first >= s.len() || second >= s.len() {
        s
    } else {
        s.subrange(second + 1, next_underscore(s, second + 1))
    }
}

fn find_underscore(s: &str, from: usize) -> (r: usize)
    requires
        from <= s@.len(),
    ensures
        r == next_underscore(s@, from as int),
        from <= r <= s@.len(),
{
    let len = s.unicode_len();
    let mut i = from;
    while i < len
        invariant
            len == s@.len(),
            from <= i <= len,
            next_underscore(s@, from as int) == next_underscore(s@, i as int),
        decreases len - i,
    {
        if s.get_char(i) == '_' {
            return i;
        }
        i = i + 1;
    }
    i
}

/// The short name of an entity, used for its folder and its file names.
pub fn display_name(entity: &str) -> (r: String)
    ensures
        r@ == display_name_of(entity@),
{
    let len = entity.unicode_len();
    let first = find_underscore(entity, 0);
    if first >= len {
        return entity.to_owned();
    }
    let second = find_underscore(entity, first + 1);
    if second >= len {
        return entity.to_owned();
    }
    let third = find_underscore(entity, second + 1);
    entity.substring_char(second + 1, third).to_owned()
}

/// The name of a table's single output file: `<display>_<label>.csv`.
pub open spec fn table_file_text(display: Seq<char>, label: Seq<char>) -> Seq<char> {
    display + "_"@ + label + ".csv"@
}

/// The name of chunk `k` of a table: `<display>_<label>_<k>.csv`.
pub open spec fn chunk_file_text(display: Seq<char>, label: Seq<char>, k: nat) -> Seq<char> {
    display + "_"@ + label + "_"@ + nat_text(k) + ".csv"@
}

/// `folder/file`.
pub open spec fn path_text(folder: Seq<char>, file: Seq<char>) -> Seq<char> {
    folder + "/"@ + file
}

/// The file of the unresolved entity names, under the output root.
pub const UNRESOLVED_LOG: &'static str = "0_error_project.log";

/// The file of the most recent entity failure, under the output root.
pub const FAILURE_LOG: &'static str = "0_error_company.log";

/// The file of the extracted entities' short names, under the output root.
pub const SUCCESS_LOG: &'static str = "1_successful_company.log";

/// The audit log, under the output root.
pub const AUDIT_LOG: &'static str = "2_logs.log";

/// Joins a folder and a name below it with `/`. An entity's folder is the
/// output root joined with its short name.
pub fn join_path(folder: &str, name: &str) -> (r: String)
    ensures
        r@ == path_text(folder@, name@),
{
    let mut r = folder.to_owned();
    r.append("/");
    r.append(name);
    r
}

/// The name of a table's single output file.
pub fn table_file_name(display: &str, label: &str) -> (r: String)
    ensures
        r@ == table_file_text(display@, label@),
{
    let mut r = display.to_owned();
    r.append("_");
    r.append(label);
    r.append(".csv");
    r
}

/// The name of chunk `k` of a table.
pub fn chunk_file_name(display: &str, label: &str, k: u64) -> (r: String)
    ensures
        r@ == chunk_file_text(display@, label@, k as nat),
{
    let mut r = display.to_owned();
    r.append("_");
    r.append(label);
    r.append("_");
    r.append(u64_text(k).as_str());
    r.append(".csv");
    r
}

/// The files of a table of `total` rows written in chunks of `threshold`
/// rows: the unsuffixed name where the table fits in one chunk, else one
/// name for each window, numbered from 1 without gaps.
pub fn ledger_file_names(display: &str, label: &str, total: u64, threshold: u64) -> (r: Vec<String>)
    requires
        threshold > 0,
    ensures
        total <= threshold ==> r@.len() == 1 && r@[0]@ == table_file_text(display@, label@),
        total > threshold ==> r@.len() == window_count(total as nat, threshold as nat),
        total > threshold ==> forall|i: int|
            0 <= i < r@.len() ==> #[trigger] r@[i]@ == chunk_file_text(display@, label@, (i + 1) as nat),
{
    let mut names: Vec<String> = Vec::new();
    if total <= threshold {
        names.push(table_file_name(display, label));
        return names;
    }
    let windows = plan_windows(total, threshold);
    let mut i: usize = 0;
    while i < windows.len()
        invariant
            i <= windows@.len(),
            names@.len() == i,
            windows@.len() == window_count(total as nat, threshold as nat),
            forall|j: int|
                0 <= j < i ==> #[trigger] names@[j]@ == chunk_file_text(display@, label@, (j + 1) as nat),
        decreases windows@.len() - i,
    {
        names.push(chunk_file_name(display, label, (i + 1) as u64));
        i = i + 1;
    }
    names
}

/// One file of a table written in chunks: its name and the rows it holds.
pub struct ChunkFile {
    pub name: String,
    pub window: ChunkWindow,
}

/// Plans the files of a table of `total` rows written in chunks of
/// `threshold` rows: one file for each window, named as
/// `ledger_file_names` says.
pub fn plan_chunk_files(display: &str, label: &str, total: u64, threshold: u64) -> (r: Vec<ChunkFile>)
    requires
        threshold > 0,
    ensures
        r@.len() == window_count(total as nat, threshold as nat),
        forall|i: int|
            0 <= i < r@.len() ==> #[trigger] r@[i].window == window_at(total as nat, threshold as nat, i as nat),
        total <= threshold ==> r@[0].name@ == table_file_text(display@, label@),
        total > threshold ==> forall|i: int|
            0 <= i < r@.len() ==> #[trigger] r@[i].name@ == chunk_file_text(display@, label@, (i + 1) as nat),
{
    let windows = plan_windows(total, threshold);
    let mut names = ledger_file_names(display, label, total, threshold);
    if total <= threshold {
        assert(window_count(total as nat, threshold as nat) == 1) by (nonlinear_arith)
            requires
                total <= threshold,
                threshold > 0,
                total == 0 ==> window_count(total as nat, threshold as nat) == 1,
                total > 0 ==> window_count(total as nat, threshold as nat) == (total + threshold - 1) / threshold as int,
        {
        }
    }
    let mut files: Vec<ChunkFile> = Vec::new();
    let mut i: usize = 0;
    while i < windows.len()
        invariant
            windows@.len() == names@.len(),
            windows@.len() == window_count(total as nat, threshold as nat),
            forall|k: int| 0 <= k < windows@.len() ==> #[trigger] windows@[k] == window_at(total as nat, threshold as nat, k as nat),
            total <= threshold ==> names@[0]@ == table_file_text(display@, label@),
            total > threshold ==> forall|k: int|
                0 <= k < names@.len() ==> #[trigger] names@[k]@ == chunk_file_text(display@, label@, (k + 1) as nat),
            i <= windows@.len(),
            files@.len() == i,
            forall|k: int| 0 <= k < i ==> #[trigger] files@[k].window == windows@[k],
            forall|k: int| 0 <= k < i ==> #[trigger] files@[k].name@ == names@[k]@,
        decreases windows@.len() - i,
    {
        files.push(ChunkFile { name: names[i].clone(), window: windows[i] });
        i = i + 1;
    }
    files
}

/// Plans the files of a ledger table of `total` rows, in chunks of
/// `LEDGER_CHUNK_ROWS` rows: a single unsuffixed file for a table that fits
/// in one chunk (an empty table included, as one empty window), else files
/// numbered from 1, one for each window.
pub fn plan_ledger_files(display: &str, label: &str, total: u64) -> (r: Vec<ChunkFile>)
    ensures
        r@.len() == window_count(total as nat, LEDGER_CHUNK_ROWS as nat),
        forall|i: int|
            0 <= i < r@.len() ==> #[trigger] r@[i].window == window_at(
                total as nat,
                LEDGER_CHUNK_ROWS as nat,
                i as nat,
            ),
        total <= LEDGER_CHUNK_ROWS ==> r@.len() == 1 && r@[0].name@ == table_file_text(display@, label@),
        total > LEDGER_CHUNK_ROWS ==> forall|i: int|
            0 <= i < r@.len() ==> #[trigger] r@[i].name@ == chunk_file_text(display@, label@, (i + 1) as nat),
{
    let r = plan_chunk_files(display, label, total, LEDGER_CHUNK_ROWS);
    if total <= LEDGER_CHUNK_ROWS {
        assert(window_count(total as nat, LEDGER_CHUNK_ROWS as nat) == 1) by (nonlinear_arith)
            requires
                total <= LEDGER_CHUNK_ROWS,
                total == 0 ==> window_count(total as nat, LEDGER_CHUNK_ROWS as nat) == 1,
                total > 0 ==> window_count(total as nat, LEDGER_CHUNK_ROWS as nat) == (total
                    + LEDGER_CHUNK_ROWS - 1) / LEDGER_CHUNK_ROWS as int,
        {
        }
    }
    r
}

/// Chunk files of one table never share a name: different chunk numbers
/// give different names.
pub proof fn law_chunk_names_distinct(display: Seq<char>, label: Seq<char>, j: nat, k: nat)
    requires
        j != k,
    ensures
        chunk_file_text(display, label, j) != chunk_file_text(display, label, k),
{
    let p = display + "_"@ + label + "_"@;
    let a = chunk_file_text(display, label, j);
    let b = chunk_file_text(display, label, k);
    assert(a =~= p + nat_text(j) + ".csv"@);
    assert(b =~= p + nat_text(k) + ".csv"@);
    if a == b {
        assert(nat_text(j).len() == nat_text(k).len());
        let end = p.len() + nat_text(j).len();
        assert(a.subrange(p.len() as int, end as int) =~= nat_text(j));
        assert(b.subrange(p.len() as int, end as int) =~= nat_text(k));
        lemma_nat_text_value(j);
        lemma_nat_text_value(k);
        assert(digits_value(nat_text(j)) == digits_value(nat_text(k)));
    }
}

} // verus!
