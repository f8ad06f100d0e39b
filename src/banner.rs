use vstd::prelude::*;

verus! {

/// Package metadata shown when the extension starts.
pub struct PackageInfo {
    pub name: String,
    pub version: String,
    pub target_triple: String,
    pub authors: String,
    pub description: String,
    pub build_timestamp: String,
}

/// The rich-text start-up banner: name, version and target triple, then the
/// authors, the description and the build time, one per line.
pub open spec fn banner_of(
    name: Seq<char>,
    version: Seq<char>,
    target_triple: Seq<char>,
    authors: Seq<char>,
    description: Seq<char>,
    build_timestamp: Seq<char>,
) -> Seq<char> {
    "[b][color=green]"@ + name + " v"@ + version + "-"@ + target_triple + "[/color][/b]\n[b]作者:[/b] "@
        + authors + "\n[b]描述:[/b] "@ + description + "\n[b]构建时间:[/b] "@ + build_timestamp
}

impl PackageInfo {
    /// The banner for this package.
    pub fn banner(&self) -> (r: String)
        ensures
            r@ == banner_of(
                self.name@,
                self.version@,
                self.target_triple@,
                self.authors@,
                self.description@,
                self.build_timestamp@,
            ),
    {
        let mut r = String::from_str("[b][color=green]");
        r.append(self.name.as_str());
        r.append(" v");
        r.append(self.version.as_str());
        r.append("-");
        r.append(self.target_triple.as_str());
        r.append("[/color][/b]\n[b]作者:[/b] ");
        r.append(self.authors.as_str());
        r.append("\n[b]描述:[/b] ");
        r.append(self.description.as_str());
        r.append("\n[b]构建时间:[/b] ");
        r.append(self.build_timestamp.as_str());
        r
    }
}

} // verus!
