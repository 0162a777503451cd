//! The decisions of the plugin that installs the animated sprite pass into a
//! host renderer: whether to install it, and whether the default pass it
//! replaces was removed as expected.

use vstd::prelude::*;

verus! {

/// The plugin that replaces the host's sprite extraction pass with the
/// animated one.
#[derive(Debug, Clone, Copy, PartialEq, Eq, Structural)]
pub struct SpriteAnimationPlugin;

/// What building the plugin does.
#[derive(Debug, Clone, Copy, PartialEq, Eq, Structural)]
pub enum BuildPlan {
    /// The sprite renderer is missing: warn and install nothing.
    WarnMissingRenderer,
    /// Register the animation components and add the animated pass.
    Install,
}

/// Why cleaning up the plugin failed.
#[derive(Debug, Clone, Copy, PartialEq, Eq, Structural)]
pub enum CleanupError {
    /// The sprite renderer was never added.
    MissingRenderer,
    /// The default pass could not be removed.
    RemovalFailed,
    /// A number of passes other than one was removed.
    UnexpectedCount(usize),
}

/// Where the default pass was removed from a render stage, what came of it.
#[derive(Debug, Clone, Copy, PartialEq, Eq, Structural)]
pub enum Removal {
    /// The host has no render stage: nothing to remove.
    NoRenderStage,
    /// The removal failed.
    Failed,
    /// This many passes were removed.
    Removed(usize),
}

impl SpriteAnimationPlugin {
    /// Installs the pass exactly when the sprite renderer is present.
    pub fn build(&self, renderer_added: bool) -> (r: BuildPlan)
        ensures
            r == if renderer_added {
                BuildPlan::Install
            } else {
                BuildPlan::WarnMissingRenderer
            },
    {
        if !renderer_added {
            return BuildPlan::WarnMissingRenderer;
        }
        BuildPlan::Install
    }

    /// Checks the cleanup: the renderer must be present, and where there is
    /// a render stage exactly one default pass must have been removed.
    pub fn cleanup(&self, renderer_added: bool, removal: Removal) -> (r: Result<(), CleanupError>)
        ensures
            r == if !renderer_added {
                Err(CleanupError::MissingRenderer)
            } else {
                match removal {
                    Removal::NoRenderStage => Ok(()),
                    Removal::Failed => Err(CleanupError::RemovalFailed),
                    Removal::Removed(n) => if n == 1 {
                        Ok(())
                    } else {
                        Err(CleanupError::UnexpectedCount(n))
                    },
                }
            },
    {
        if !renderer_added {
            return Err(CleanupError::MissingRenderer);
        }
        match removal {
            Removal::NoRenderStage => Ok(()),
            Removal::Failed => Err(CleanupError::RemovalFailed),
            Removal::Removed(n) => {
                if n != 1 {
                    return Err(CleanupError::UnexpectedCount(n));
                }
                Ok(())
            },
        }
    }
}

} // verus!
