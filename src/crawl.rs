//! The decisions of a directory crawl: which entries to skip, how a file's
//! name splits, which extractor reads it, and the fields it is indexed under.
use vstd::prelude::*;
use vstd::string::*;
use crate::ranking::same_text;

verus! {

/// The characters of `s`, one by one.
pub fn chars_of(s: &str) -> (r: Vec<char>)
    ensures
        r@ == s@,
{
    let n = s.unicode_len();
    let mut out: Vec<char> = Vec::new();
    let mut i: usize = 0;
    while i < n
        invariant
            n == s@.len(),
            i <= n,
            out@ == s@.take(i as int),
        decreases n - i,
    {
        out.push(s.get_char(i));
        i = i + 1;
        assert(out@ =~= s@.take(i as int));
    }
    assert(s@.take(i as int) =~= s@);
    out
}

/// Whether the entry named `name` is a dot file, which the crawl skips.
pub fn is_dot_file(name: &str) -> (r: bool)
    ensures
        r == (name@.len() > 0 && name@[0] == '.'),
{
    name.unicode_len() > 0 && name.get_char(0) == '.'
}

/// The index of the last `.` in `s`, or -1 where there is none.
pub open spec fn last_dot(s: Seq<char>) -> int
    decreases s.len(),
{
    if s.len() == 0 {
        -1
    } else if s.last() == '.' {
        s.len() - 1
    } else {
        last_dot(s.drop_last())
    }
}

proof fn lemma_last_dot(s: Seq<char>)
    ensures
        -1 <= last_dot(s) < s.len(),
        last_dot(s) >= 0 ==> s[last_dot(s)] == '.',
        forall|k: int| last_dot(s) < k < s.len() ==> s[k] != '.',
    decreases s.len(),
{
    if s.len() > 0 && s.last() != '.' {
        lemma_last_dot(s.drop_last());
        assert forall|k: int| last_dot(s) < k < s.len() implies s[k] != '.' by {
            if k < s.len() - 1 {
                assert(s.drop_last()[k] == s[k]);
            }
        }
    }
}

/// A file name's stem and extension, as `std::path::Path` splits them: the
/// extension follows the last `.`, unless that `.` is the name's first character.
pub open spec fn split_spec(name: Seq<char>) -> (Seq<char>, Option<Seq<char>>) {
    let d = last_dot(name);
    if d <= 0 {
        (name, None)
    } else {
        (name.take(d), Some(name.skip(d + 1)))
    }
}

/// Splits the file name `name` into its stem and its extension.
pub fn split_file_name(name: &str) -> (r: (String, Option<String>))
    ensures
        r.0@ == split_spec(name@).0,
        match r.1 {
            Some(e) => split_spec(name@).1 == Some(e@),
            None => split_spec(name@).1 is None,
        },
{
    let n = name.unicode_len();
    let mut i: usize = n;
    while i > 0 && name.get_char(i - 1) != '.'
        invariant
            n == name@.len(),
            i <= n,
            forall|k: int| i <= k < n ==> name@[k] != '.',
        decreases i,
    {
        i = i - 1;
    }
    proof {
        lemma_last_dot(name@);
        assert(i == 0 || last_dot(name@) == i - 1) by {
            if i > 0 {
                let d = last_dot(name@);
                if d > i - 1 {
                    assert(name@[d] != '.');
                } else if d < i - 1 {
                    assert(name@[i - 1] != '.');
                }
            }
        }
        if i == 0 {
            assert(last_dot(name@) == -1) by {
                let d = last_dot(name@);
                if d >= 0 {
                    assert(name@[d] != '.');
                }
            }
        }
    }
    if i <= 1 {
        (String::from_str(name), None)
    } else {
        let stem = name.substring_char(0, i - 1);
        let ext = name.substring_char(i, n);
        assert(stem@ =~= name@.take(i - 1));
        assert(ext@ =~= name@.skip(i as int));
        (String::from_str(stem), Some(String::from_str(ext)))
    }
}

/// The extractors of the crawl.
#[derive(Debug, PartialEq, Eq, Structural)]
pub enum Format {
    /// XML character data, for `xhtml`, `xml` and `html` files.
    Xml,
    /// The file's text as it stands, for `txt` and `md` files.
    Text,
    /// The text of each page, for `pdf` files.
    Pdf,
}

/// The extractor for files with extension `ext`, if any.
pub open spec fn format_spec(ext: Seq<char>) -> Option<Format> {
    if ext == "xhtml"@ || ext == "xml"@ || ext == "html"@ {
        Some(Format::Xml)
    } else if ext == "txt"@ || ext == "md"@ {
        Some(Format::Text)
    } else if ext == "pdf"@ {
        Some(Format::Pdf)
    } else {
        None
    }
}

/// The extractor for files with extension `ext`; `None` where the extension is
/// not supported.
pub fn format_for_extension(ext: &str) -> (r: Option<Format>)
    ensures
        r == format_spec(ext@),
{
    if same_text(ext, "xhtml") || same_text(ext, "xml") || same_text(ext, "html") {
        Some(Format::Xml)
    } else if same_text(ext, "txt") || same_text(ext, "md") {
        Some(Format::Text)
    } else if same_text(ext, "pdf") {
        Some(Format::Pdf)
    } else {
        None
    }
}

/// The fields a file is indexed under: `name`, its stem; `extension`, its
/// extension; `content`, its text.
pub fn document_fields(stem: &str, extension: &str, content: Vec<char>) -> (r: Vec<(String, Vec<char>)>)
    ensures
        r@.len() == 3,
        r@[0].0@ == "name"@,
        r@[0].1@ == stem@,
        r@[1].0@ == "extension"@,
        r@[1].1@ == extension@,
        r@[2].0@ == "content"@,
        r@[2].1@ == content@,
{
    let mut fields: Vec<(String, Vec<char>)> = Vec::new();
    fields.push((String::from_str("name"), chars_of(stem)));
    fields.push((String::from_str("extension"), chars_of(extension)));
    fields.push((String::from_str("content"), content));
    fields
}

/// The counts a crawl keeps: files skipped, and files indexed.
pub struct CrawlCounts {
    pub skipped: usize,
    pub processed: usize,
}

impl CrawlCounts {
    pub fn new() -> (r: Self)
        ensures
            r.skipped == 0,
            r.processed == 0,
    {
        CrawlCounts { skipped: 0, processed: 0 }
    }

    /// Counts one more skipped file, up to the largest count.
    pub fn skip(&mut self)
        ensures
            final(self).skipped == if old(self).skipped < usize::MAX {
                old(self).skipped + 1
            } else {
                old(self).skipped as int
            },
            final(self).processed == old(self).processed,
    {
        if self.skipped < usize::MAX {
            self.skipped = self.skipped + 1;
        }
    }

    /// Counts one more indexed file, up to the largest count.
    pub fn process(&mut self)
        ensures
            final(self).processed == if old(self).processed < usize::MAX {
                old(self).processed + 1
            } else {
                old(self).processed as int
            },
            final(self).skipped == old(self).skipped,
    {
        if self.processed < usize::MAX {
            self.processed = self.processed + 1;
        }
    }
}


/// What the crawl does with a directory entry before looking at its contents.
#[derive(Debug, PartialEq, Eq, Structural)]
pub enum EntryStep {
    /// A dot file or directory: skipped, and counted as skipped.
    SkipDotFile,
    /// A directory: crawled in turn.
    Descend,
    /// A file: indexed where the model asks for it.
    CheckFile,
}

/// The step for the entry named `name`, a directory where `is_dir` holds.
pub fn classify_entry(name: &str, is_dir: bool) -> (r: EntryStep)
    ensures
        r == if name@.len() > 0 && name@[0] == '.' {
            EntryStep::SkipDotFile
        } else if is_dir {
            EntryStep::Descend
        } else {
            EntryStep::CheckFile
        },
{
    if is_dot_file(name) {
        EntryStep::SkipDotFile
    } else if is_dir {
        EntryStep::Descend
    } else {
        EntryStep::CheckFile
    }
}

} // verus!
