use vstd::prelude::*;

verus! {

/// File formats a view can be saved as or loaded from.
#[derive(Clone, Copy, Debug, PartialEq, Eq, Structural)]
pub enum Format {
    Archive,
    Png,
    Gif,
}

/// Why a path cannot hold a view.
#[derive(Clone, Debug, PartialEq, Eq)]
pub enum PathError {
    /// The path is a directory.
    IsDirectory,
    /// The path has no extension.
    NoExtension,
    /// The extension is not one of the supported ones.
    Unsupported(String),
}

/// The format of a file extension.
pub open spec fn format_of(ext: Seq<char>) -> Option<Format> {
    if ext == "gif"@ {
        Some(Format::Gif)
    } else if ext == "png"@ {
        Some(Format::Png)
    } else if ext == "rxi"@ {
        Some(Format::Archive)
    } else {
        None
    }
}

/// A path to a file that holds a view, with its format.
#[derive(Clone, Debug)]
pub struct Path {
    pub format: Format,
    raw: String,
}

impl Path {
    pub closed spec fn format_view(&self) -> Format {
        self.format
    }

    pub closed spec fn raw_view(&self) -> Seq<char> {
        self.raw@
    }

    /// A path given as text, whether it names a directory, and its
    /// extension if it has one.
    pub fn try_from(path: &str, is_dir: bool, extension: Option<&str>) -> (r: Result<Path, PathError>)
        ensures
            is_dir ==> r == Err::<Path, PathError>(PathError::IsDirectory),
            !is_dir && extension is None ==> r == Err::<Path, PathError>(PathError::NoExtension),
            !is_dir && extension is Some ==> match format_of(extension.unwrap()@) {
                Some(f) => r matches Ok(p) && p.format_view() == f && p.raw_view() == path@,
                None => r matches Err(PathError::Unsupported(e)) && e@ == extension.unwrap()@,
            },
    {
        proof {
            reveal_strlit("gif");
            reveal_strlit("png");
            reveal_strlit("rxi");
        }
        if is_dir {
            return Err(PathError::IsDirectory);
        }
        let ext = match extension {
            Some(e) => e,
            None => {
                return Err(PathError::NoExtension);
            },
        };
        let cs = crate::text::chars_of(ext);
        let gif = vec!['g', 'i', 'f'];
        let png = vec!['p', 'n', 'g'];
        let rxi = vec!['r', 'x', 'i'];
        assert("gif"@ =~= gif@);
        assert("png"@ =~= png@);
        assert("rxi"@ =~= rxi@);
        let format = if eq_chars(cs.as_slice(), gif.as_slice()) {
            Format::Gif
        } else if eq_chars(cs.as_slice(), png.as_slice()) {
            Format::Png
        } else if eq_chars(cs.as_slice(), rxi.as_slice()) {
            Format::Archive
        } else {
            return Err(PathError::Unsupported(ext.to_owned()));
        };
        Ok(Path { raw: path.to_owned(), format })
    }

    /// The path as text.
    pub fn as_str(&self) -> (s: &str)
        ensures
            s@ == self.raw_view(),
    {
        self.raw.as_str()
    }
}

/// Whether two character sequences are equal.
pub fn eq_chars(a: &[char], b: &[char]) -> (r: bool)
    ensures
        r == (a@ == b@),
{
    if a.len() != b.len() {
        return false;
    }
    let mut i: usize = 0;
    while i < a.len()
        invariant
            a@.len() == b@.len(),
            i <= a@.len(),
            a@.subrange(0, i as int) == b@.subrange(0, i as int),
        decreases a@.len() - i,
    {
        if a[i] != b[i] {
            assert(a@.subrange(0, i + 1)[i as int] != b@.subrange(0, i + 1)[i as int]);
            return false;
        }
        assert(a@.subrange(0, i + 1) =~= a@.subrange(0, i as int).push(a@[i as int]));
        assert(b@.subrange(0, i + 1) =~= b@.subrange(0, i as int).push(b@[i as int]));
        i = i + 1;
    }
    assert(a@ =~= a@.subrange(0, i as int));
    assert(b@ =~= b@.subrange(0, i as int));
    true
}

} // verus!
