use vstd::prelude::*;
use crate::error::Error;
use crate::strutil::path_join;

verus! {

/// One managed application, as a discovery pass records it.  Paths are
/// plain text; whether the runtime-state directory exists, and when it was
/// last touched, are facts observed by the caller at scan time.
#[derive(Clone, Debug)]
pub struct GameInfo {
    app_id: u32,
    name: String,
    prefix_path: String,
    has_manifest: bool,
    last_played: u64,
    prefix_exists: bool,
    modified: u64,
}

impl GameInfo {
    /// The identifier is non-zero and the name non-empty on every value.
    pub open spec fn wf(&self) -> bool {
        self.spec_app_id() != 0 && self.spec_name().len() > 0
    }

    /// Builds a record, rejecting a zero identifier or an empty name.
    /// The runtime-state directory is assumed absent and untouched until
    /// the scan marks it otherwise.
    pub fn new(app_id: u32, name: String, prefix_path: String, has_manifest: bool, last_played: u64)
        -> (r: Result<GameInfo, Error>)
        ensures
            match r {
                Ok(g) => app_id != 0 && name@.len() > 0 && g.wf() && g.spec_app_id() == app_id
                    && g.spec_name() == name@ && g.spec_prefix_path() == prefix_path@
                    && g.spec_has_manifest() == has_manifest && g.spec_last_played() == last_played
                    && !g.spec_prefix_exists() && g.spec_modified() == 0,
                Err(e) => (app_id == 0 || name@.len() == 0) && (app_id == 0 ==> e is InvalidAppId)
                    && (app_id != 0 ==> e is InvalidManifest),
            },
    {
        if app_id == 0 {
            return Err(Error::InvalidAppId(String::from_str("AppID cannot be zero")));
        }
        if name.as_str().is_empty() {
            return Err(Error::InvalidManifest(String::from_str("Game name cannot be empty")));
        }
        Ok(
            GameInfo {
                app_id,
                name,
                prefix_path,
                has_manifest,
                last_played,
                prefix_exists: false,
                modified: 0,
            },
        )
    }

    /// The identifier.
    pub fn app_id(&self) -> (r: u32)
        ensures
            r == self.spec_app_id(),
    {
        self.app_id
    }

    /// The display name.
    pub fn name(&self) -> (r: &str)
        ensures
            r@ == self.spec_name(),
    {
        self.name.as_str()
    }

    /// The runtime-state path recorded for this application.
    pub fn prefix_path(&self) -> (r: &String)
        ensures
            r@ == self.spec_prefix_path(),
    {
        &self.prefix_path
    }

    /// Whether a manifest was found for it.
    pub fn has_manifest(&self) -> (r: bool)
        ensures
            r == self.spec_has_manifest(),
    {
        self.has_manifest
    }

    /// The last-activity timestamp, zero when unknown.
    pub fn last_played(&self) -> (r: u64)
        ensures
            r == self.spec_last_played(),
    {
        self.last_played
    }

    /// Whether the runtime-state directory was seen on disk.
    pub fn prefix_exists(&self) -> (r: bool)
        ensures
            r == self.spec_prefix_exists(),
    {
        self.prefix_exists
    }

    /// When the runtime-state directory was last touched, zero when unknown.
    pub fn modified(&self) -> (r: u64)
        ensures
            r == self.spec_modified(),
    {
        self.modified
    }

    /// Records whether the runtime-state directory was seen on disk.
    pub fn set_prefix_exists(&mut self, exists: bool)
        ensures
            final(self).spec_prefix_exists() == exists,
            final(self).spec_app_id() == old(self).spec_app_id(),
            final(self).spec_name() == old(self).spec_name(),
            final(self).spec_prefix_path() == old(self).spec_prefix_path(),
            final(self).spec_has_manifest() == old(self).spec_has_manifest(),
            final(self).spec_last_played() == old(self).spec_last_played(),
            final(self).spec_modified() == old(self).spec_modified(),
    {
        self.prefix_exists = exists;
    }

    /// Records when the runtime-state directory was last touched.
    pub fn set_modified(&mut self, modified: u64)
        ensures
            final(self).spec_modified() == modified,
            final(self).spec_app_id() == old(self).spec_app_id(),
            final(self).spec_name() == old(self).spec_name(),
            final(self).spec_prefix_path() == old(self).spec_prefix_path(),
            final(self).spec_has_manifest() == old(self).spec_has_manifest(),
            final(self).spec_last_played() == old(self).spec_last_played(),
            final(self).spec_prefix_exists() == old(self).spec_prefix_exists(),
    {
        self.modified = modified;
    }

    /// Spec access to the identifier.
    pub closed spec fn spec_app_id(&self) -> u32 {
        self.app_id
    }

    /// Spec access to the name.
    pub closed spec fn spec_name(&self) -> Seq<char> {
        self.name@
    }

    /// Spec access to the recorded path.
    pub closed spec fn spec_prefix_path(&self) -> Seq<char> {
        self.prefix_path@
    }

    /// Spec access to the manifest flag.
    pub closed spec fn spec_has_manifest(&self) -> bool {
        self.has_manifest
    }

    /// Spec access to the last-activity timestamp.
    pub closed spec fn spec_last_played(&self) -> u64 {
        self.last_played
    }

    /// Spec access to the existence flag.
    pub closed spec fn spec_prefix_exists(&self) -> bool {
        self.prefix_exists
    }

    /// Spec access to the modification timestamp.
    pub closed spec fn spec_modified(&self) -> u64 {
        self.modified
    }
}

/// One storage root.  The constructor takes what the caller observed of
/// the path, so a value only ever exists for a directory that was present
/// at construction time.
#[derive(Clone, Debug)]
pub struct SteamLibrary {
    path: String,
}

impl SteamLibrary {
    /// Spec access to the root path.
    pub closed spec fn spec_path(&self) -> Seq<char> {
        self.path@
    }

    /// Builds a handle for a storage root that the caller has just
    /// observed: it must exist and be a directory.
    pub fn new(path: String, exists: bool, is_dir: bool) -> (r: Result<SteamLibrary, Error>)
        ensures
            exists && is_dir ==> (r matches Ok(lib) && lib.spec_path() == path@),
            !exists ==> (r matches Err(e) && e is LibraryNotFound),
            exists && !is_dir ==> (r matches Err(e) && e is FileSystemError),
    {
        if !exists {
            return Err(Error::LibraryNotFound(path));
        }
        if !is_dir {
            return Err(Error::FileSystemError(path));
        }
        Ok(SteamLibrary { path })
    }

    /// The root path.
    pub fn path(&self) -> (r: &String)
        ensures
            r@ == self.spec_path(),
    {
        &self.path
    }

    /// The applications directory under the root.
    pub fn steamapps_path(&self) -> (r: String)
        ensures
            r@ == self.spec_path() + "/steamapps"@,
    {
        proof {
            reveal_strlit("steamapps");
            reveal_strlit("/");
            reveal_strlit("/steamapps");
        }
        let r = path_join(self.path.as_str(), "steamapps");
        proof {
            assert(r@ =~= self.spec_path() + "/steamapps"@);
        }
        r
    }

    /// The runtime-state directory under the root.
    pub fn compatdata_path(&self) -> (r: String)
        ensures
            r@ == self.spec_path() + "/steamapps"@ + "/compatdata"@,
    {
        proof {
            reveal_strlit("compatdata");
            reveal_strlit("/");
            reveal_strlit("/compatdata");
        }
        let sa = self.steamapps_path();
        let r = path_join(sa.as_str(), "compatdata");
        proof {
            assert(r@ =~= self.spec_path() + "/steamapps"@ + "/compatdata"@);
        }
        r
    }

    /// A storage root is useful while it still has its applications
    /// directory; the caller hands in what it observed.
    pub fn is_valid(&self, path_exists: bool, steamapps_exists: bool) -> (r: bool)
        ensures
            r == (path_exists && steamapps_exists),
    {
        path_exists && steamapps_exists
    }

    /// A path under the root.
    pub fn join(&self, rest: &str) -> (r: String)
        ensures
            r@ == self.spec_path() + "/"@ + rest@,
    {
        path_join(self.path.as_str(), rest)
    }
}

} // verus!
