//! Platforms that images are built for.
use vstd::prelude::*;

use crate::error::{DockerPullError, ErrorView, Result};
use crate::text;

verus! {

/// An operating system and an architecture, with an optional variant of it.
#[derive(Debug, Clone, PartialEq, Eq)]
pub struct Platform {
    pub os: String,
    pub architecture: String,
    pub variant: Option<String>,
}

/// A platform, as text.
pub struct PlatformView {
    pub os: Seq<char>,
    pub architecture: Seq<char>,
    pub variant: Option<Seq<char>>,
}

impl View for Platform {
    type V = PlatformView;

    open spec fn view(&self) -> PlatformView {
        PlatformView {
            os: self.os@,
            architecture: self.architecture@,
            variant: text::opt_string(self.variant),
        }
    }
}

/// An optional platform, as text.
pub open spec fn opt_platform(platform: Option<Platform>) -> Option<PlatformView> {
    match platform {
        Some(p) => Some(p@),
        None => None,
    }
}

/// The usual name of an operating system.
pub open spec fn normal_os(os: Seq<char>) -> Seq<char> {
    if os == "macos"@ {
        "darwin"@
    } else {
        os
    }
}

/// The usual name of an architecture.
pub open spec fn normal_architecture(architecture: Seq<char>) -> Seq<char> {
    if architecture == "x86_64"@ {
        "amd64"@
    } else if architecture == "x86"@ || architecture == "i386"@ || architecture == "i586"@
        || architecture == "i686"@ {
        "386"@
    } else if architecture == "aarch64"@ {
        "arm64"@
    } else if architecture == "armv7l"@ || architecture == "armv7"@ {
        "arm"@
    } else {
        architecture
    }
}

fn normalize_os(value: &str) -> (r: &str)
    ensures
        r@ == normal_os(value@),
{
    if text::same(value, "macos") {
        "darwin"
    } else {
        value
    }
}

fn normalize_architecture(value: &str) -> (r: &str)
    ensures
        r@ == normal_architecture(value@),
{
    if text::same(value, "x86_64") {
        "amd64"
    } else if text::same(value, "x86") || text::same(value, "i386") || text::same(value, "i586")
        || text::same(value, "i686") {
        "386"
    } else if text::same(value, "aarch64") {
        "arm64"
    } else if text::same(value, "armv7l") || text::same(value, "armv7") {
        "arm"
    } else {
        value
    }
}

/// A platform, or why a text is none.
pub type PlatformResult = std::result::Result<PlatformView, ErrorView>;

/// The platform that a text names: an operating system, an architecture and an optional variant,
/// with slashes between them and none of them empty.
pub open spec fn parsed(value: Seq<char>) -> PlatformResult {
    let parts = text::split_view(value, '/');
    if parts[0].len() == 0 {
        Err(ErrorView::InvalidInput("platform os is required"@))
    } else if parts.len() < 2 || parts[1].len() == 0 {
        Err(ErrorView::InvalidInput("platform architecture is required"@))
    } else if parts.len() >= 3 && parts[2].len() == 0 {
        Err(ErrorView::InvalidInput("platform variant cannot be empty"@))
    } else if parts.len() > 3 {
        Err(ErrorView::InvalidInput("platform must use os/arch[/variant] format"@))
    } else {
        Ok(
            PlatformView {
                os: normal_os(parts[0]),
                architecture: normal_architecture(parts[1]),
                variant: if parts.len() == 3 {
                    Some(parts[2])
                } else {
                    None
                },
            },
        )
    }
}

impl PlatformView {
    /// The text that names the platform.
    pub open spec fn text(self) -> Seq<char> {
        match self.variant {
            Some(variant) => self.os + "/"@ + self.architecture + "/"@ + variant,
            None => self.os + "/"@ + self.architecture,
        }
    }

    /// Whether `other` will do where this platform is asked for: a variant counts only where one
    /// is asked for.
    pub open spec fn accepts(self, other: PlatformView) -> bool {
        self.os == other.os && self.architecture == other.architecture && (self.variant is None
            || self.variant == other.variant)
    }
}

impl Platform {
    /// The platform with the usual names of an operating system and an architecture.
    pub fn of(os: &str, architecture: &str) -> (platform: Platform)
        ensures
            platform@ == (PlatformView {
                os: normal_os(os@),
                architecture: normal_architecture(architecture@),
                variant: None,
            }),
    {
        Platform {
            os: normalize_os(os).to_owned(),
            architecture: normalize_architecture(architecture).to_owned(),
            variant: None,
        }
    }

    /// Reads a platform.
    pub fn parse(value: &str) -> (r: Result<Platform>)
        ensures
            parsed(value@) == match r {
                Ok(platform) => Ok(platform@),
                Err(e) => Err(e@),
            },
    {
        let parts = text::split(value, '/');
        let ghost views = text::split_view(value@, '/');
        proof {
            lemma_split_nonempty(value@, '/');
            assert(views.len() == parts@.len());
            assert forall|i: int| 0 <= i < parts@.len() implies views[i] == (#[trigger]
            parts@[i])@ by {}
        }
        if parts[0].is_empty() {
            return Err(DockerPullError::InvalidInput("platform os is required".to_owned()));
        }
        if parts.len() < 2 || parts[1].is_empty() {
            return Err(
                DockerPullError::InvalidInput("platform architecture is required".to_owned()),
            );
        }
        if parts.len() >= 3 && parts[2].is_empty() {
            return Err(
                DockerPullError::InvalidInput("platform variant cannot be empty".to_owned()),
            );
        }
        if parts.len() > 3 {
            return Err(
                DockerPullError::InvalidInput(
                    "platform must use os/arch[/variant] format".to_owned(),
                ),
            );
        }
        let variant = if parts.len() == 3 {
            Some(parts[2].to_owned())
        } else {
            None
        };
        Ok(
            Platform {
                os: normalize_os(parts[0]).to_owned(),
                architecture: normalize_architecture(parts[1]).to_owned(),
                variant,
            },
        )
    }

    /// Whether `other` will do where this platform is asked for.
    pub fn matches(&self, other: &Platform) -> (r: bool)
        ensures
            r == self@.accepts(other@),
    {
        if !text::same(self.os.as_str(), other.os.as_str()) || !text::same(
            self.architecture.as_str(),
            other.architecture.as_str(),
        ) {
            return false;
        }
        match (&self.variant, &other.variant) {
            (None, _) => true,
            (Some(a), Some(b)) => text::same(a.as_str(), b.as_str()),
            (Some(_), None) => false,
        }
    }

    /// The text that names the platform.
    pub fn as_string(&self) -> (s: String)
        ensures
            s@ == self@.text(),
    {
        let mut s = crate::error::concat3(self.os.as_str(), "/", self.architecture.as_str());
        if let Some(variant) = &self.variant {
            s.append("/");
            s.append(variant.as_str());
        }
        s
    }

    /// A copy of the platform.
    pub fn copy(&self) -> (r: Platform)
        ensures
            r@ == self@,
    {
        Platform {
            os: self.os.clone(),
            architecture: self.architecture.clone(),
            variant: match &self.variant {
                Some(variant) => Some(variant.clone()),
                None => None,
            },
        }
    }
}

proof fn lemma_split_nonempty(s: Seq<char>, c: char)
    ensures
        text::split_view(s, c).len() > 0,
{
    text::lemma_find_char(s, c);
}

/// A platform that was read is named by its text: reading that text gives the platform again.
pub proof fn law_platform_text_reads_back(value: Seq<char>)
    requires
        parsed(value) is Ok,
    ensures
        parsed(parsed(value)->Ok_0.text()) == parsed(value),
{
    let parts = text::split_view(value, '/');
    let p = parsed(value)->Ok_0;
    text::lemma_split_pieces(value, '/');
    lemma_normal_names(parts[0], parts[1]);
    reveal_strlit("/");
    let head = p.os + "/"@ + p.architecture;
    match p.variant {
        Some(variant) => {
            assert(p.text() =~= p.os + seq!['/'] + (p.architecture + seq!['/'] + variant));
            text::lemma_split_once_at(p.os, '/', p.architecture + seq!['/'] + variant);
            text::lemma_split_once_at(p.architecture, '/', variant);
            text::lemma_find_char(variant, '/');
            assert(text::split_view(variant, '/') =~= seq![variant]);
            assert(text::split_view(p.architecture + seq!['/'] + variant, '/') =~= seq![
                p.architecture,
                variant,
            ]);
            assert(text::split_view(p.text(), '/') =~= seq![p.os, p.architecture, variant]);
        },
        None => {
            assert(p.text() =~= p.os + seq!['/'] + p.architecture);
            text::lemma_split_once_at(p.os, '/', p.architecture);
            text::lemma_find_char(p.architecture, '/');
            assert(text::split_view(p.architecture, '/') =~= seq![p.architecture]);
            assert(text::split_view(p.text(), '/') =~= seq![p.os, p.architecture]);
        },
    }
}

/// Usual names stay as they are, have no slash and are not empty.
proof fn lemma_normal_names(os: Seq<char>, architecture: Seq<char>)
    requires
        os.len() > 0,
        architecture.len() > 0,
        !os.contains('/'),
        !architecture.contains('/'),
    ensures
        normal_os(normal_os(os)) == normal_os(os),
        normal_architecture(normal_architecture(architecture)) == normal_architecture(architecture),
        normal_os(os).len() > 0,
        normal_architecture(architecture).len() > 0,
        !normal_os(os).contains('/'),
        !normal_architecture(architecture).contains('/'),
{
    reveal_strlit("macos");
    reveal_strlit("darwin");
    reveal_strlit("x86_64");
    reveal_strlit("amd64");
    reveal_strlit("x86");
    reveal_strlit("i386");
    reveal_strlit("i586");
    reveal_strlit("i686");
    reveal_strlit("386");
    reveal_strlit("aarch64");
    reveal_strlit("arm64");
    reveal_strlit("armv7l");
    reveal_strlit("armv7");
    reveal_strlit("arm");
    assert("386"@[0] == '3' && "x86"@[0] == 'x');
    assert("amd64"@[1] == 'm' && "arm64"@[1] == 'r' && "armv7"@[3] == 'v' && "arm64"@[3] == '6');
}

/// A platform that is asked for will do.
pub proof fn law_platform_accepts_itself(p: PlatformView)
    ensures
        p.accepts(p),
{
}

/// A platform is named by an operating system and an architecture, and by a variant where one is
/// given; other numbers of parts, and empty ones, name none.
pub proof fn law_a_platform_is_read(os: Seq<char>, architecture: Seq<char>, variant: Seq<char>)
    requires
        !os.contains('/'),
        !architecture.contains('/'),
        !variant.contains('/'),
    ensures
        ({
            let short = parsed(os + "/"@ + architecture);
            let long = parsed(os + "/"@ + architecture + "/"@ + variant);
            let name = PlatformView {
                os: normal_os(os),
                architecture: normal_architecture(architecture),
                variant: None,
            };
            &&& os.len() > 0 && architecture.len() > 0 ==> short == PlatformResult::Ok(name)
            &&& os.len() == 0 || architecture.len() == 0 ==> short is Err
            &&& os.len() > 0 && architecture.len() > 0 && variant.len() > 0 ==> long
                == PlatformResult::Ok(PlatformView { variant: Some(variant), ..name })
            &&& os.len() == 0 || architecture.len() == 0 || variant.len() == 0 ==> long is Err
            &&& parsed(os) is Err
        }),
{
    reveal_strlit("/");
    let short = os + "/"@ + architecture;
    let long = os + "/"@ + architecture + "/"@ + variant;
    let rest = architecture + seq!['/'] + variant;
    assert(short =~= os + seq!['/'] + architecture);
    assert(long =~= os + seq!['/'] + rest);
    text::lemma_split_once_at(os, '/', architecture);
    text::lemma_split_once_at(os, '/', rest);
    text::lemma_split_once_at(architecture, '/', variant);
    text::lemma_find_char(os, '/');
    text::lemma_find_char(architecture, '/');
    text::lemma_find_char(variant, '/');
    assert(text::split_view(os, '/') =~= seq![os]);
    assert(text::split_view(architecture, '/') =~= seq![architecture]);
    assert(text::split_view(variant, '/') =~= seq![variant]);
    assert(text::split_view(rest, '/') =~= seq![architecture, variant]);
    assert(text::split_view(short, '/') =~= seq![os, architecture]);
    assert(text::split_view(long, '/') =~= seq![os, architecture, variant]);
}

/// Other names of systems and architectures stand for the usual ones, and the usual ones for
/// themselves.
pub proof fn law_other_names_stand_for_the_usual_ones(name: Seq<char>)
    ensures
        normal_os("macos"@) == "darwin"@,
        name != "macos"@ ==> normal_os(name) == name,
        normal_architecture("x86_64"@) == "amd64"@,
        normal_architecture("aarch64"@) == "arm64"@,
        name == "x86"@ || name == "i386"@ || name == "i586"@ || name == "i686"@
            ==> normal_architecture(name) == "386"@,
        name == "armv7l"@ || name == "armv7"@ ==> normal_architecture(name) == "arm"@,
        name != "x86_64"@ && name != "aarch64"@ && name != "x86"@ && name != "i386"@ && name
            != "i586"@ && name != "i686"@ && name != "armv7l"@ && name != "armv7"@
            ==> normal_architecture(name) == name,
{
    reveal_strlit("x86_64");
    reveal_strlit("x86");
    reveal_strlit("i386");
    reveal_strlit("i586");
    reveal_strlit("i686");
    reveal_strlit("aarch64");
    reveal_strlit("armv7l");
    reveal_strlit("armv7");
    assert("x86_64"@.len() == 6 && "x86"@.len() == 3 && "i386"@.len() == 4 && "i586"@.len() == 4
        && "i686"@.len() == 4 && "aarch64"@.len() == 7 && "armv7l"@.len() == 6 && "armv7"@.len()
        == 5);
    assert("x86_64"@[0] == 'x' && "armv7l"@[0] == 'a');
}

/// A platform will do where its system and its architecture are the ones asked for, and its variant
/// too where one is asked for.
pub proof fn law_a_platform_will_do_where_it_fits(
    os: Seq<char>,
    architecture: Seq<char>,
    variant: Option<Seq<char>>,
    other: PlatformView,
)
    ensures
        (PlatformView { os, architecture, variant: None }).accepts(
            PlatformView { os, architecture, variant },
        ),
        other.os != os ==> !(PlatformView { os, architecture, variant }).accepts(other),
        other.architecture != architecture ==> !(PlatformView { os, architecture, variant }).accepts(
            other,
        ),
        variant is Some && other.variant != variant ==> !(PlatformView {
            os,
            architecture,
            variant,
        }).accepts(other),
{
}

} // verus!
