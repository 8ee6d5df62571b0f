//! The builtin extension libraries of lispBM and the names under which
//! they appear among an entry's imports.

use vstd::prelude::*;

use crate::text::{ends_with, str_eq};

verus! {

/// A builtin extension library whose symbols an entry file can import.
#[derive(Debug, Clone, Copy, PartialEq, Eq, Structural)]
pub enum Builtin {
    Lbm,
    Array,
    Crypt,
    Display,
    Dsp,
    Dyn,
    LbmImageFormat,
    Math,
    Mutex,
    Random,
    Runtime,
    SetLib,
    String,
    Ttf,
    Vesc,
    VescWifi,
    VescBle,
}

impl Builtin {
    /// The file name that stands for the builtin among an entry's imports.
    pub open spec fn spec_file_name(self) -> Seq<char> {
        match self {
            Builtin::Lbm => "lbm.builtin.ext.toml"@,
            Builtin::Array => "array.builtin.ext.toml"@,
            Builtin::Crypt => "crypt.builtin.ext.toml"@,
            Builtin::Display => "display.builtin.ext.toml"@,
            Builtin::Dsp => "dsp.builtin.ext.toml"@,
            Builtin::Dyn => "dyn.builtin.ext.toml"@,
            Builtin::LbmImageFormat => "lbm-image-format.builtin.ext.toml"@,
            Builtin::Math => "math.builtin.ext.toml"@,
            Builtin::Mutex => "mutex.builtin.ext.toml"@,
            Builtin::Random => "random.builtin.ext.toml"@,
            Builtin::Runtime => "runtime.builtin.ext.toml"@,
            Builtin::SetLib => "set.builtin.ext.toml"@,
            Builtin::String => "string.builtin.ext.toml"@,
            Builtin::Ttf => "ttf.builtin.ext.toml"@,
            Builtin::Vesc => "vesc.builtin.ext.toml"@,
            Builtin::VescWifi => "vesc-wifi.builtin.ext.toml"@,
            Builtin::VescBle => "vesc-ble.builtin.ext.toml"@,
        }
    }

    /// Where the reference document that lists the builtin's symbols is
    /// installed, relative to the server's directory.
    pub open spec fn spec_ref_path(self) -> Seq<char> {
        match self {
            Builtin::Lbm => "builtin/lbmref.toml"@,
            Builtin::Array => "builtin/arrayref.toml"@,
            Builtin::Crypt => "builtin/cryptref.toml"@,
            Builtin::Display => "builtin/displayref.toml"@,
            Builtin::Dsp => "builtin/dspref.toml"@,
            Builtin::Dyn => "builtin/dynref.toml"@,
            Builtin::LbmImageFormat => "builtin/lbm-image-format.toml"@,
            Builtin::Math => "builtin/mathref.toml"@,
            Builtin::Mutex => "builtin/mutexref.toml"@,
            Builtin::Random => "builtin/randomref.toml"@,
            Builtin::Runtime => "builtin/runtimeref.toml"@,
            Builtin::SetLib => "builtin/setref.toml"@,
            Builtin::String => "builtin/stringref.toml"@,
            Builtin::Ttf => "builtin/ttfref.toml"@,
            Builtin::Vesc => "builtin/vescref.toml"@,
            Builtin::VescWifi => "builtin/vesc-wifiref.toml"@,
            Builtin::VescBle => "builtin/vesc-bleref.toml"@,
        }
    }

    /// The file name of the builtin, as its `Display` form prints it.
    pub fn file_name(&self) -> (r: &'static str)
        ensures
            r@ == self.spec_file_name(),
    {
        match self {
            Builtin::Lbm => "lbm.builtin.ext.toml",
            Builtin::Array => "array.builtin.ext.toml",
            Builtin::Crypt => "crypt.builtin.ext.toml",
            Builtin::Display => "display.builtin.ext.toml",
            Builtin::Dsp => "dsp.builtin.ext.toml",
            Builtin::Dyn => "dyn.builtin.ext.toml",
            Builtin::LbmImageFormat => "lbm-image-format.builtin.ext.toml",
            Builtin::Math => "math.builtin.ext.toml",
            Builtin::Mutex => "mutex.builtin.ext.toml",
            Builtin::Random => "random.builtin.ext.toml",
            Builtin::Runtime => "runtime.builtin.ext.toml",
            Builtin::SetLib => "set.builtin.ext.toml",
            Builtin::String => "string.builtin.ext.toml",
            Builtin::Ttf => "ttf.builtin.ext.toml",
            Builtin::Vesc => "vesc.builtin.ext.toml",
            Builtin::VescWifi => "vesc-wifi.builtin.ext.toml",
            Builtin::VescBle => "vesc-ble.builtin.ext.toml",
        }
    }

    /// The file name of the builtin as an owned string.
    pub fn to_string(&self) -> (r: String)
        ensures
            r@ == self.spec_file_name(),
    {
        self.file_name().to_owned()
    }

    /// Where the reference document of the builtin is installed, relative
    /// to the server's directory. The document's text is read from there by
    /// the server, not held by the library.
    pub fn ref_path(&self) -> (r: &'static str)
        ensures
            r@ == self.spec_ref_path(),
    {
        match self {
            Builtin::Lbm => "builtin/lbmref.toml",
            Builtin::Array => "builtin/arrayref.toml",
            Builtin::Crypt => "builtin/cryptref.toml",
            Builtin::Display => "builtin/displayref.toml",
            Builtin::Dsp => "builtin/dspref.toml",
            Builtin::Dyn => "builtin/dynref.toml",
            Builtin::LbmImageFormat => "builtin/lbm-image-format.toml",
            Builtin::Math => "builtin/mathref.toml",
            Builtin::Mutex => "builtin/mutexref.toml",
            Builtin::Random => "builtin/randomref.toml",
            Builtin::Runtime => "builtin/runtimeref.toml",
            Builtin::SetLib => "builtin/setref.toml",
            Builtin::String => "builtin/stringref.toml",
            Builtin::Ttf => "builtin/ttfref.toml",
            Builtin::Vesc => "builtin/vescref.toml",
            Builtin::VescWifi => "builtin/vesc-wifiref.toml",
            Builtin::VescBle => "builtin/vesc-bleref.toml",
        }
    }

    /// The builtin whose file name is `filename`, if there is one.
    pub fn from_filename(filename: &str) -> (r: Option<Self>)
        ensures
            r == spec_from_filename(filename@),
    {
        if str_eq(filename, "lbm.builtin.ext.toml") {
            Some(Builtin::Lbm)
        } else if str_eq(filename, "array.builtin.ext.toml") {
            Some(Builtin::Array)
        } else if str_eq(filename, "crypt.builtin.ext.toml") {
            Some(Builtin::Crypt)
        } else if str_eq(filename, "display.builtin.ext.toml") {
            Some(Builtin::Display)
        } else if str_eq(filename, "dsp.builtin.ext.toml") {
            Some(Builtin::Dsp)
        } else if str_eq(filename, "dyn.builtin.ext.toml") {
            Some(Builtin::Dyn)
        } else if str_eq(filename, "lbm-image-format.builtin.ext.toml") {
            Some(Builtin::LbmImageFormat)
        } else if str_eq(filename, "math.builtin.ext.toml") {
            Some(Builtin::Math)
        } else if str_eq(filename, "mutex.builtin.ext.toml") {
            Some(Builtin::Mutex)
        } else if str_eq(filename, "random.builtin.ext.toml") {
            Some(Builtin::Random)
        } else if str_eq(filename, "runtime.builtin.ext.toml") {
            Some(Builtin::Runtime)
        } else if str_eq(filename, "set.builtin.ext.toml") {
            Some(Builtin::SetLib)
        } else if str_eq(filename, "string.builtin.ext.toml") {
            Some(Builtin::String)
        } else if str_eq(filename, "ttf.builtin.ext.toml") {
            Some(Builtin::Ttf)
        } else if str_eq(filename, "vesc.builtin.ext.toml") {
            Some(Builtin::Vesc)
        } else if str_eq(filename, "vesc-wifi.builtin.ext.toml") {
            Some(Builtin::VescWifi)
        } else if str_eq(filename, "vesc-ble.builtin.ext.toml") {
            Some(Builtin::VescBle)
        } else {
            None
        }
    }
}

/// The builtin named by a file name.
pub open spec fn spec_from_filename(s: Seq<char>) -> Option<Builtin> {
    if s == "lbm.builtin.ext.toml"@ {
        Some(Builtin::Lbm)
    } else if s == "array.builtin.ext.toml"@ {
        Some(Builtin::Array)
    } else if s == "crypt.builtin.ext.toml"@ {
        Some(Builtin::Crypt)
    } else if s == "display.builtin.ext.toml"@ {
        Some(Builtin::Display)
    } else if s == "dsp.builtin.ext.toml"@ {
        Some(Builtin::Dsp)
    } else if s == "dyn.builtin.ext.toml"@ {
        Some(Builtin::Dyn)
    } else if s == "lbm-image-format.builtin.ext.toml"@ {
        Some(Builtin::LbmImageFormat)
    } else if s == "math.builtin.ext.toml"@ {
        Some(Builtin::Math)
    } else if s == "mutex.builtin.ext.toml"@ {
        Some(Builtin::Mutex)
    } else if s == "random.builtin.ext.toml"@ {
        Some(Builtin::Random)
    } else if s == "runtime.builtin.ext.toml"@ {
        Some(Builtin::Runtime)
    } else if s == "set.builtin.ext.toml"@ {
        Some(Builtin::SetLib)
    } else if s == "string.builtin.ext.toml"@ {
        Some(Builtin::String)
    } else if s == "ttf.builtin.ext.toml"@ {
        Some(Builtin::Ttf)
    } else if s == "vesc.builtin.ext.toml"@ {
        Some(Builtin::Vesc)
    } else if s == "vesc-wifi.builtin.ext.toml"@ {
        Some(Builtin::VescWifi)
    } else if s == "vesc-ble.builtin.ext.toml"@ {
        Some(Builtin::VescBle)
    } else {
        None
    }
}

/// The builtins' file names differ pairwise in length or in one of their
/// first two characters.
proof fn lemma_builtin_names_distinct()
    ensures
        "lbm.builtin.ext.toml"@.len() == 20,
        "lbm.builtin.ext.toml"@[0] == 'l',
        "lbm.builtin.ext.toml"@[1] == 'b',
        "array.builtin.ext.toml"@.len() == 22,
        "array.builtin.ext.toml"@[0] == 'a',
        "array.builtin.ext.toml"@[1] == 'r',
        "crypt.builtin.ext.toml"@.len() == 22,
        "crypt.builtin.ext.toml"@[0] == 'c',
        "crypt.builtin.ext.toml"@[1] == 'r',
        "display.builtin.ext.toml"@.len() == 24,
        "display.builtin.ext.toml"@[0] == 'd',
        "display.builtin.ext.toml"@[1] == 'i',
        "dsp.builtin.ext.toml"@.len() == 20,
        "dsp.builtin.ext.toml"@[0] == 'd',
        "dsp.builtin.ext.toml"@[1] == 's',
        "dyn.builtin.ext.toml"@.len() == 20,
        "dyn.builtin.ext.toml"@[0] == 'd',
        "dyn.builtin.ext.toml"@[1] == 'y',
        "lbm-image-format.builtin.ext.toml"@.len() == 33,
        "lbm-image-format.builtin.ext.toml"@[0] == 'l',
        "lbm-image-format.builtin.ext.toml"@[1] == 'b',
        "math.builtin.ext.toml"@.len() == 21,
        "math.builtin.ext.toml"@[0] == 'm',
        "math.builtin.ext.toml"@[1] == 'a',
        "mutex.builtin.ext.toml"@.len() == 22,
        "mutex.builtin.ext.toml"@[0] == 'm',
        "mutex.builtin.ext.toml"@[1] == 'u',
        "random.builtin.ext.toml"@.len() == 23,
        "random.builtin.ext.toml"@[0] == 'r',
        "random.builtin.ext.toml"@[1] == 'a',
        "runtime.builtin.ext.toml"@.len() == 24,
        "runtime.builtin.ext.toml"@[0] == 'r',
        "runtime.builtin.ext.toml"@[1] == 'u',
        "set.builtin.ext.toml"@.len() == 20,
        "set.builtin.ext.toml"@[0] == 's',
        "set.builtin.ext.toml"@[1] == 'e',
        "string.builtin.ext.toml"@.len() == 23,
        "string.builtin.ext.toml"@[0] == 's',
        "string.builtin.ext.toml"@[1] == 't',
        "ttf.builtin.ext.toml"@.len() == 20,
        "ttf.builtin.ext.toml"@[0] == 't',
        "ttf.builtin.ext.toml"@[1] == 't',
        "vesc.builtin.ext.toml"@.len() == 21,
        "vesc.builtin.ext.toml"@[0] == 'v',
        "vesc.builtin.ext.toml"@[1] == 'e',
        "vesc-wifi.builtin.ext.toml"@.len() == 26,
        "vesc-wifi.builtin.ext.toml"@[0] == 'v',
        "vesc-wifi.builtin.ext.toml"@[1] == 'e',
        "vesc-ble.builtin.ext.toml"@.len() == 25,
        "vesc-ble.builtin.ext.toml"@[0] == 'v',
        "vesc-ble.builtin.ext.toml"@[1] == 'e',
{
    reveal_strlit("lbm.builtin.ext.toml");
    reveal_strlit("array.builtin.ext.toml");
    reveal_strlit("crypt.builtin.ext.toml");
    reveal_strlit("display.builtin.ext.toml");
    reveal_strlit("dsp.builtin.ext.toml");
    reveal_strlit("dyn.builtin.ext.toml");
    reveal_strlit("lbm-image-format.builtin.ext.toml");
    reveal_strlit("math.builtin.ext.toml");
    reveal_strlit("mutex.builtin.ext.toml");
    reveal_strlit("random.builtin.ext.toml");
    reveal_strlit("runtime.builtin.ext.toml");
    reveal_strlit("set.builtin.ext.toml");
    reveal_strlit("string.builtin.ext.toml");
    reveal_strlit("ttf.builtin.ext.toml");
    reveal_strlit("vesc.builtin.ext.toml");
    reveal_strlit("vesc-wifi.builtin.ext.toml");
    reveal_strlit("vesc-ble.builtin.ext.toml");
}

/// Reading a builtin's file name back gives the builtin: the name that an
/// entry's imports hold for a builtin extension is recognised when the entry
/// is indexed.
pub proof fn lemma_from_filename_of_file_name(b: Builtin)
    ensures
        spec_from_filename(b.spec_file_name()) == Some(b),
{
    lemma_builtin_names_distinct();
}

/// A file name names at most one builtin, and it is that builtin's own name.
pub proof fn lemma_from_filename_names(s: Seq<char>, b: Builtin)
    requires
        spec_from_filename(s) == Some(b),
    ensures
        s == b.spec_file_name(),
{
    lemma_builtin_names_distinct();
}

/// Every builtin's file name ends with `.builtin.ext.toml`.
pub proof fn lemma_file_name_suffix(b: Builtin)
    ensures
        ends_with(b.spec_file_name(), ".builtin.ext.toml"@),
{
    reveal_strlit("lbm.builtin.ext.toml");
    reveal_strlit("array.builtin.ext.toml");
    reveal_strlit("crypt.builtin.ext.toml");
    reveal_strlit("display.builtin.ext.toml");
    reveal_strlit("dsp.builtin.ext.toml");
    reveal_strlit("dyn.builtin.ext.toml");
    reveal_strlit("lbm-image-format.builtin.ext.toml");
    reveal_strlit("math.builtin.ext.toml");
    reveal_strlit("mutex.builtin.ext.toml");
    reveal_strlit("random.builtin.ext.toml");
    reveal_strlit("runtime.builtin.ext.toml");
    reveal_strlit("set.builtin.ext.toml");
    reveal_strlit("string.builtin.ext.toml");
    reveal_strlit("ttf.builtin.ext.toml");
    reveal_strlit("vesc.builtin.ext.toml");
    reveal_strlit("vesc-wifi.builtin.ext.toml");
    reveal_strlit("vesc-ble.builtin.ext.toml");
    reveal_strlit(".builtin.ext.toml");
    let t = ".builtin.ext.toml"@;
    match b {
        Builtin::Lbm => {
            let s = b.spec_file_name();
            assert(s.subrange(s.len() - t.len(), s.len() as int) =~= t);
        },
        Builtin::Array => {
            let s = b.spec_file_name();
            assert(s.subrange(s.len() - t.len(), s.len() as int) =~= t);
        },
        Builtin::Crypt => {
            let s = b.spec_file_name();
            assert(s.subrange(s.len() - t.len(), s.len() as int) =~= t);
        },
        Builtin::Display => {
            let s = b.spec_file_name();
            assert(s.subrange(s.len() - t.len(), s.len() as int) =~= t);
        },
        Builtin::Dsp => {
            let s = b.spec_file_name();
            assert(s.subrange(s.len() - t.len(), s.len() as int) =~= t);
        },
        Builtin::Dyn => {
            let s = b.spec_file_name();
            assert(s.subrange(s.len() - t.len(), s.len() as int) =~= t);
        },
        Builtin::LbmImageFormat => {
            let s = b.spec_file_name();
            assert(s.subrange(s.len() - t.len(), s.len() as int) =~= t);
        },
        Builtin::Math => {
            let s = b.spec_file_name();
            assert(s.subrange(s.len() - t.len(), s.len() as int) =~= t);
        },
        Builtin::Mutex => {
            let s = b.spec_file_name();
            assert(s.subrange(s.len() - t.len(), s.len() as int) =~= t);
        },
        Builtin::Random => {
            let s = b.spec_file_name();
            assert(s.subrange(s.len() - t.len(), s.len() as int) =~= t);
        },
        Builtin::Runtime => {
            let s = b.spec_file_name();
            assert(s.subrange(s.len() - t.len(), s.len() as int) =~= t);
        },
        Builtin::SetLib => {
            let s = b.spec_file_name();
            assert(s.subrange(s.len() - t.len(), s.len() as int) =~= t);
        },
        Builtin::String => {
            let s = b.spec_file_name();
            assert(s.subrange(s.len() - t.len(), s.len() as int) =~= t);
        },
        Builtin::Ttf => {
            let s = b.spec_file_name();
            assert(s.subrange(s.len() - t.len(), s.len() as int) =~= t);
        },
        Builtin::Vesc => {
            let s = b.spec_file_name();
            assert(s.subrange(s.len() - t.len(), s.len() as int) =~= t);
        },
        Builtin::VescWifi => {
            let s = b.spec_file_name();
            assert(s.subrange(s.len() - t.len(), s.len() as int) =~= t);
        },
        Builtin::VescBle => {
            let s = b.spec_file_name();
            assert(s.subrange(s.len() - t.len(), s.len() as int) =~= t);
        },
    }
}


/// `stem` is the part of `name` before the suffix of builtin file names.
proof fn lemma_stem_of(stem: Seq<char>, expected: Seq<char>, name: Seq<char>)
    requires
        name == stem + ".builtin.ext.toml"@,
        name == expected + ".builtin.ext.toml"@,
    ensures
        stem == expected,
{
    let t = ".builtin.ext.toml"@;
    assert((stem + t).len() == stem.len() + t.len());
    assert((expected + t).len() == expected.len() + t.len());
    assert(stem.len() == expected.len());
    assert forall|i: int| 0 <= i < stem.len() implies stem[i] == expected[i] by {
        assert(name[i] == stem[i]);
        assert(name[i] == expected[i]);
    }
    assert(stem =~= expected);
}

/// Each builtin's reference document is named after the builtin: where the
/// builtin's file name is `stem` followed by `.builtin.ext.toml`, its
/// reference document is `builtin/` followed by `stem` and `ref.toml` (for
/// the image-format library, by `stem` and `.toml`).
pub proof fn lemma_ref_path_named_after_builtin(b: Builtin, stem: Seq<char>)
    requires
        b.spec_file_name() == stem + ".builtin.ext.toml"@,
    ensures
        b.spec_ref_path() == "builtin/"@ + stem + if b == Builtin::LbmImageFormat {
            ".toml"@
        } else {
            "ref.toml"@
        },
{
    reveal_strlit("builtin/");
    reveal_strlit(".builtin.ext.toml");
    reveal_strlit("ref.toml");
    reveal_strlit(".toml");
    match b {
        Builtin::Lbm => {
            reveal_strlit("lbm.builtin.ext.toml");
            reveal_strlit("lbm");
            reveal_strlit("builtin/lbmref.toml");
            assert("lbm.builtin.ext.toml"@ =~= "lbm"@ + ".builtin.ext.toml"@);
            lemma_stem_of(stem, "lbm"@, b.spec_file_name());
            assert(b.spec_ref_path() =~= "builtin/"@ + "lbm"@ + "ref.toml"@);
        },
        Builtin::Array => {
            reveal_strlit("array.builtin.ext.toml");
            reveal_strlit("array");
            reveal_strlit("builtin/arrayref.toml");
            assert("array.builtin.ext.toml"@ =~= "array"@ + ".builtin.ext.toml"@);
            lemma_stem_of(stem, "array"@, b.spec_file_name());
            assert(b.spec_ref_path() =~= "builtin/"@ + "array"@ + "ref.toml"@);
        },
        Builtin::Crypt => {
            reveal_strlit("crypt.builtin.ext.toml");
            reveal_strlit("crypt");
            reveal_strlit("builtin/cryptref.toml");
            assert("crypt.builtin.ext.toml"@ =~= "crypt"@ + ".builtin.ext.toml"@);
            lemma_stem_of(stem, "crypt"@, b.spec_file_name());
            assert(b.spec_ref_path() =~= "builtin/"@ + "crypt"@ + "ref.toml"@);
        },
        Builtin::Display => {
            reveal_strlit("display.builtin.ext.toml");
            reveal_strlit("display");
            reveal_strlit("builtin/displayref.toml");
            assert("display.builtin.ext.toml"@ =~= "display"@ + ".builtin.ext.toml"@);
            lemma_stem_of(stem, "display"@, b.spec_file_name());
            assert(b.spec_ref_path() =~= "builtin/"@ + "display"@ + "ref.toml"@);
        },
        Builtin::Dsp => {
            reveal_strlit("dsp.builtin.ext.toml");
            reveal_strlit("dsp");
            reveal_strlit("builtin/dspref.toml");
            assert("dsp.builtin.ext.toml"@ =~= "dsp"@ + ".builtin.ext.toml"@);
            lemma_stem_of(stem, "dsp"@, b.spec_file_name());
            assert(b.spec_ref_path() =~= "builtin/"@ + "dsp"@ + "ref.toml"@);
        },
        Builtin::Dyn => {
            reveal_strlit("dyn.builtin.ext.toml");
            reveal_strlit("dyn");
            reveal_strlit("builtin/dynref.toml");
            assert("dyn.builtin.ext.toml"@ =~= "dyn"@ + ".builtin.ext.toml"@);
            lemma_stem_of(stem, "dyn"@, b.spec_file_name());
            assert(b.spec_ref_path() =~= "builtin/"@ + "dyn"@ + "ref.toml"@);
        },
        Builtin::LbmImageFormat => {
            reveal_strlit("lbm-image-format.builtin.ext.toml");
            reveal_strlit("lbm-image-format");
            reveal_strlit("builtin/lbm-image-format.toml");
            assert("lbm-image-format.builtin.ext.toml"@ =~= "lbm-image-format"@ + ".builtin.ext.toml"@);
            lemma_stem_of(stem, "lbm-image-format"@, b.spec_file_name());
            assert(b.spec_ref_path() =~= "builtin/"@ + "lbm-image-format"@ + ".toml"@);
        },
        Builtin::Math => {
            reveal_strlit("math.builtin.ext.toml");
            reveal_strlit("math");
            reveal_strlit("builtin/mathref.toml");
            assert("math.builtin.ext.toml"@ =~= "math"@ + ".builtin.ext.toml"@);
            lemma_stem_of(stem, "math"@, b.spec_file_name());
            assert(b.spec_ref_path() =~= "builtin/"@ + "math"@ + "ref.toml"@);
        },
        Builtin::Mutex => {
            reveal_strlit("mutex.builtin.ext.toml");
            reveal_strlit("mutex");
            reveal_strlit("builtin/mutexref.toml");
            assert("mutex.builtin.ext.toml"@ =~= "mutex"@ + ".builtin.ext.toml"@);
            lemma_stem_of(stem, "mutex"@, b.spec_file_name());
            assert(b.spec_ref_path() =~= "builtin/"@ + "mutex"@ + "ref.toml"@);
        },
        Builtin::Random => {
            reveal_strlit("random.builtin.ext.toml");
            reveal_strlit("random");
            reveal_strlit("builtin/randomref.toml");
            assert("random.builtin.ext.toml"@ =~= "random"@ + ".builtin.ext.toml"@);
            lemma_stem_of(stem, "random"@, b.spec_file_name());
            assert(b.spec_ref_path() =~= "builtin/"@ + "random"@ + "ref.toml"@);
        },
        Builtin::Runtime => {
            reveal_strlit("runtime.builtin.ext.toml");
            reveal_strlit("runtime");
            reveal_strlit("builtin/runtimeref.toml");
            assert("runtime.builtin.ext.toml"@ =~= "runtime"@ + ".builtin.ext.toml"@);
            lemma_stem_of(stem, "runtime"@, b.spec_file_name());
            assert(b.spec_ref_path() =~= "builtin/"@ + "runtime"@ + "ref.toml"@);
        },
        Builtin::SetLib => {
            reveal_strlit("set.builtin.ext.toml");
            reveal_strlit("set");
            reveal_strlit("builtin/setref.toml");
            assert("set.builtin.ext.toml"@ =~= "set"@ + ".builtin.ext.toml"@);
            lemma_stem_of(stem, "set"@, b.spec_file_name());
            assert(b.spec_ref_path() =~= "builtin/"@ + "set"@ + "ref.toml"@);
        },
        Builtin::String => {
            reveal_strlit("string.builtin.ext.toml");
            reveal_strlit("string");
            reveal_strlit("builtin/stringref.toml");
            assert("string.builtin.ext.toml"@ =~= "string"@ + ".builtin.ext.toml"@);
            lemma_stem_of(stem, "string"@, b.spec_file_name());
            assert(b.spec_ref_path() =~= "builtin/"@ + "string"@ + "ref.toml"@);
        },
        Builtin::Ttf => {
            reveal_strlit("ttf.builtin.ext.toml");
            reveal_strlit("ttf");
            reveal_strlit("builtin/ttfref.toml");
            assert("ttf.builtin.ext.toml"@ =~= "ttf"@ + ".builtin.ext.toml"@);
            lemma_stem_of(stem, "ttf"@, b.spec_file_name());
            assert(b.spec_ref_path() =~= "builtin/"@ + "ttf"@ + "ref.toml"@);
        },
        Builtin::Vesc => {
            reveal_strlit("vesc.builtin.ext.toml");
            reveal_strlit("vesc");
            reveal_strlit("builtin/vescref.toml");
            assert("vesc.builtin.ext.toml"@ =~= "vesc"@ + ".builtin.ext.toml"@);
            lemma_stem_of(stem, "vesc"@, b.spec_file_name());
            assert(b.spec_ref_path() =~= "builtin/"@ + "vesc"@ + "ref.toml"@);
        },
        Builtin::VescWifi => {
            reveal_strlit("vesc-wifi.builtin.ext.toml");
            reveal_strlit("vesc-wifi");
            reveal_strlit("builtin/vesc-wifiref.toml");
            assert("vesc-wifi.builtin.ext.toml"@ =~= "vesc-wifi"@ + ".builtin.ext.toml"@);
            lemma_stem_of(stem, "vesc-wifi"@, b.spec_file_name());
            assert(b.spec_ref_path() =~= "builtin/"@ + "vesc-wifi"@ + "ref.toml"@);
        },
        Builtin::VescBle => {
            reveal_strlit("vesc-ble.builtin.ext.toml");
            reveal_strlit("vesc-ble");
            reveal_strlit("builtin/vesc-bleref.toml");
            assert("vesc-ble.builtin.ext.toml"@ =~= "vesc-ble"@ + ".builtin.ext.toml"@);
            lemma_stem_of(stem, "vesc-ble"@, b.spec_file_name());
            assert(b.spec_ref_path() =~= "builtin/"@ + "vesc-ble"@ + "ref.toml"@);
        },
    }
}

} // verus!
