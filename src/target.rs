use vstd::prelude::*;

use crate::error::SyncError;
use crate::text::same_text;

verus! {

/// The build being described: operating system, architecture and profile,
/// as the build environment names them.
pub struct BuildTarget {
    pub os: String,
    pub arch: String,
    pub profile: String,
}

/// The key of the libraries section for a build: `os.profile.arch`, with
/// shorter forms for 64-bit ARM on macOS and Android.
pub open spec fn triplet_of(os: Seq<char>, arch: Seq<char>, profile: Seq<char>) -> Seq<char> {
    if os == "macos"@ && arch == "aarch64"@ {
        "macos."@ + profile
    } else if os == "android"@ && arch == "aarch64"@ {
        "android."@ + profile + ".arm64"@
    } else {
        os + "."@ + profile + "."@ + arch
    }
}

/// The library's file name on an operating system, where it has one.
pub open spec fn library_file_name_of(os: Seq<char>) -> Option<Seq<char>> {
    if os == "windows"@ {
        Some("rust.dll"@)
    } else if os == "macos"@ {
        Some("librust.dylib"@)
    } else if os == "android"@ {
        Some("librust.so"@)
    } else {
        None
    }
}

/// Directory components, up to and including the first `debug` or `release`.
pub open spec fn kept_len(cs: Seq<Seq<char>>, i: int) -> int
    decreases cs.len() - i,
{
    if i < 0 || i >= cs.len() {
        cs.len() as int
    } else if cs[i] == "debug"@ || cs[i] == "release"@ {
        i + 1
    } else {
        kept_len(cs, i + 1)
    }
}

/// Components joined by `/`.
pub open spec fn joined(cs: Seq<Seq<char>>) -> Seq<char>
    decreases cs.len(),
{
    if cs.len() == 0 {
        Seq::empty()
    } else if cs.len() == 1 {
        cs[0]
    } else {
        joined(cs.drop_last()) + "/"@ + cs.last()
    }
}

/// `res://<dir>/<file>`, where `<dir>` is the components up to the profile
/// directory, joined by `/`.
pub open spec fn resource_path_of(cs: Seq<Seq<char>>, file_name: Seq<char>) -> Seq<char> {
    "res://"@ + joined(cs.subrange(0, kept_len(cs, 0))) + "/"@ + file_name
}

impl BuildTarget {
    /// The key that this build's library has in the libraries section.
    pub fn triplet(&self) -> (r: String)
        ensures
            r@ == triplet_of(self.os@, self.arch@, self.profile@),
    {
        let arm = same_text(self.arch.as_str(), "aarch64");
        if arm && same_text(self.os.as_str(), "macos") {
            let mut r = String::from_str("macos.");
            r.append(self.profile.as_str());
            r
        } else if arm && same_text(self.os.as_str(), "android") {
            let mut r = String::from_str("android.");
            r.append(self.profile.as_str());
            r.append(".arm64");
            r
        } else {
            let mut r = self.os.clone();
            r.append(".");
            r.append(self.profile.as_str());
            r.append(".");
            r.append(self.arch.as_str());
            r
        }
    }

    /// The library's file name: prefix, base name and the platform's extension.
    pub fn library_file_name(&self) -> (r: Result<String, SyncError>)
        ensures
            match library_file_name_of(self.os@) {
                Some(n) => r matches Ok(s) && s@ == n,
                None => r == Err::<String, SyncError>(SyncError::UnsupportedTarget),
            },
    {
        let os = self.os.as_str();
        if same_text(os, "windows") {
            Ok(String::from_str("rust.dll"))
        } else if same_text(os, "macos") {
            Ok(String::from_str("librust.dylib"))
        } else if same_text(os, "android") {
            Ok(String::from_str("librust.so"))
        } else {
            Err(SyncError::UnsupportedTarget)
        }
    }
}

/// The resource path of the library: `res://`, the output directory relative to
/// the project root cut after its first `debug` or `release` component, and
/// the file name, all joined by `/`.
pub fn resource_path(components: &Vec<String>, file_name: &str) -> (r: String)
    ensures
        r@ == resource_path_of(components@.map_values(|c: String| c@), file_name@),
{
    let ghost cs = components@.map_values(|c: String| c@);
    let mut k: usize = 0;
    loop
        invariant_except_break
            kept_len(cs, 0) == kept_len(cs, k as int),
        invariant
            k <= components.len(),
            cs == components@.map_values(|c: String| c@),
        ensures
            k == kept_len(cs, 0),
            k <= components.len(),
        decreases components.len() - k,
    {
        if k == components.len() {
            break;
        }
        let c = components[k].as_str();
        if same_text(c, "debug") || same_text(c, "release") {
            k = k + 1;
            break;
        }
        k = k + 1;
    }
    let mut dir = String::new();
    let mut i: usize = 0;
    while i < k
        invariant
            i <= k <= components.len(),
            cs == components@.map_values(|c: String| c@),
            dir@ == joined(cs.subrange(0, i as int)),
        decreases k - i,
    {
        proof {
            assert(cs.subrange(0, i + 1).drop_last() =~= cs.subrange(0, i as int));
        }
        if i > 0 {
            dir.append("/");
        }
        dir.append(components[i].as_str());
        i = i + 1;
    }
    let mut r = String::from_str("res://");
    r.append(dir.as_str());
    r.append("/");
    r.append(file_name);
    r
}

} // verus!
