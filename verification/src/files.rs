//! The on-disk library listing: one record per file under the two configured
//! roots, listed in filename-sorted order within each root.

use vstd::prelude::*;

use crate::text::lemma_lex_le_total;
use crate::text::lemma_lex_le_trans;
use crate::text::lex_le;
use crate::text::str_lex_le;

verus! {

broadcast use vstd::seq_lib::group_to_multiset_ensures;

/// One file of the library: its name, full path, seconds since its last
/// modification, sniffed MIME type and size.
#[derive(Clone, Debug, PartialEq)]
pub struct FileData {
    pub file_name: String,
    pub file_path: String,
    pub date_modified: u64,
    pub mime_type: String,
    pub file_size: u64,
}

/// The two roots the file listing walks.
#[derive(Clone, Debug, PartialEq)]
pub struct Config {
    pub series_root: String,
    pub movies_root: String,
}

/// The configuration used when none is stored: both roots point at the
/// given directory.
pub fn default_config(dir: &str) -> (r: Config)
    ensures
        r.series_root@ == dir@,
        r.movies_root@ == dir@,
{
    Config { series_root: String::from_str(dir), movies_root: String::from_str(dir) }
}

/// The MIME type to report: the sniffed one, or the octet-stream default
/// when sniffing found nothing.
pub fn mime_or_default(sniffed: Option<String>) -> (r: String)
    ensures
        match sniffed {
            Option::Some(m) => r@ == m@,
            Option::None => r@ == "application/octet-stream"@,
        },
{
    match sniffed {
        Option::Some(m) => m,
        Option::None => String::from_str("application/octet-stream"),
    }
}

/// File records in filename-sorted order.
pub open spec fn sorted_by_name(s: Seq<FileData>) -> bool {
    forall|i: int, j: int|
        0 <= i < j < s.len() ==> lex_le(#[trigger] s[i].file_name@, #[trigger] s[j].file_name@)
}

/// Sorts file records by file name, keeping exactly the same records.
pub fn sort_by_file_name(files: Vec<FileData>) -> (r: Vec<FileData>)
    ensures
        sorted_by_name(r@),
        r@.to_multiset() == files@.to_multiset(),
{
    let ghost all = files@;
    let mut src = files;
    let mut out: Vec<FileData> = Vec::new();
    proof {
        assert(out@.to_multiset().add(src@.to_multiset()) =~= all.to_multiset());
    }
    while src.len() > 0
        invariant
            sorted_by_name(out@),
            out@.to_multiset().add(src@.to_multiset()) == all.to_multiset(),
        decreases src@.len(),
    {
        let ghost old_src = src@;
        let ghost old_out = out@;
        let f = src.remove(0);
        proof {
            assert(old_src.contains(f)) by {
                assert(old_src[0] == f);
            }
            assert(old_src.to_multiset() =~= src@.to_multiset().insert(f));
        }
        let mut j: usize = 0;
        while j < out.len() && str_lex_le(out[j].file_name.as_str(), f.file_name.as_str())
            invariant
                j <= out@.len(),
                forall|k: int| 0 <= k < j ==> lex_le(#[trigger] out@[k].file_name@, f.file_name@),
            decreases out@.len() - j,
        {
            j = j + 1;
        }
        proof {
            if (j as int) < out@.len() {
                assert(!lex_le(out@[j as int].file_name@, f.file_name@));
            }
        }
        proof {
            old_out.insert_ensures(j as int, f);
        }
        out.insert(j, f);
        proof {
            // the inserted record sits between its smaller and larger neighbours
            assert forall|a: int, b: int| 0 <= a < b < out@.len() implies lex_le(
                out@[a].file_name@,
                out@[b].file_name@,
            ) by {
                if b < j {
                    assert(out@[a] == old_out[a] && out@[b] == old_out[b]);
                } else if b == j {
                    assert(out@[a] == old_out[a]);
                    assert(lex_le(old_out[a].file_name@, f.file_name@));
                } else {
                    assert(out@[b] == old_out[b - 1]);
                    if j < old_out.len() {
                        lemma_lex_le_total(old_out[j as int].file_name@, f.file_name@);
                    }
                    if a < j {
                        assert(out@[a] == old_out[a]);
                        if j < b - 1 {
                            assert(lex_le(old_out[j as int].file_name@, old_out[b - 1].file_name@));
                        }
                    } else if a == j {
                        assert(out@[a] == f);
                        if j < b - 1 {
                            lemma_lex_le_trans(
                                f.file_name@,
                                old_out[j as int].file_name@,
                                old_out[b - 1].file_name@,
                            );
                        }
                    } else {
                        assert(out@[a] == old_out[a - 1] && j <= a - 1);
                    }
                }
            }
            // the insertion only adds the one record
            assert(out@.remove(j as int) =~= old_out);
            assert(old_out.to_multiset() =~= out@.to_multiset().remove(f));
            assert(out@.contains(f)) by {
                assert(out@[j as int] == f);
            }
            assert(out@.to_multiset() =~= old_out.to_multiset().insert(f));
            assert(out@.to_multiset().add(src@.to_multiset()) =~= all.to_multiset());
        }
    }
    proof {
        assert(src@.to_multiset().len() == 0);
        assert(out@.to_multiset().add(src@.to_multiset()) =~= out@.to_multiset());
    }
    out
}

/// The full listing: the series root's files, filename-sorted, then the
/// movies root's files, filename-sorted.
pub fn file_list(series: Vec<FileData>, movies: Vec<FileData>) -> (r: Vec<FileData>)
    ensures
        r@.len() == series@.len() + movies@.len(),
        sorted_by_name(r@.take(series@.len() as int)),
        r@.take(series@.len() as int).to_multiset() == series@.to_multiset(),
        sorted_by_name(r@.skip(series@.len() as int)),
        r@.skip(series@.len() as int).to_multiset() == movies@.to_multiset(),
{
    let ghost ns = series@.len();
    let mut a = sort_by_file_name(series);
    let ghost sa = a@;
    let mut b = sort_by_file_name(movies);
    let ghost sb = b@;
    proof {
        assert(sa.to_multiset().len() == sa.len());
        assert(series@.to_multiset().len() == series@.len());
        assert(sa.len() == ns);
        assert(sb.to_multiset().len() == sb.len());
        assert(movies@.to_multiset().len() == movies@.len());
        assert(sb.len() == movies@.len());
    }
    a.append(&mut b);
    proof {
        assert(a@.take(ns as int) =~= sa);
        assert(a@.skip(ns as int) =~= sb);
    }
    a
}

} // verus!
