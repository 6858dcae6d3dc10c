//! The configuration of a run.

use crate::buffer::tile_error;
use crate::buffer::GeometryError;
use crate::config::file_options;
use crate::config::file_options_of;
use crate::config::ignored_of;
use crate::config::json_is_object;
use crate::config::json_items;
use crate::config::json_member;
use crate::config::json_value_is_object;
use crate::config::or_default;
use crate::config::parse_document;
use crate::config::parsed_json;
use crate::config::read_scene;
use crate::config::scene_of;
use crate::config::texts_of;
use crate::config::ConfigError;
use crate::config::FileOptions;
use crate::config::Scene;
use crate::geometry::part_len;
use crate::geometry::tile_col;
use crate::geometry::tile_row;
use vstd::prelude::*;

verus! {

/// One item of the scene, in cells of the whole domain.
#[derive(Clone, Copy, Debug, PartialEq, Eq, Structural)]
pub enum SceneItem {
    /// A sinusoidal source at one cell, active from iteration `start` for
    /// `duration` iterations.
    Sine { start: i32, duration: i32, row: usize, col: usize, period: i32 },
    /// A rectangle of cells that the wave does not enter.
    RectObstacle { row: usize, col: usize, width: usize, height: usize },
}

/// What the command line says of the run, each where it says it.
#[derive(Clone, Copy, Debug, PartialEq, Eq, Structural)]
pub struct CliOptions {
    pub n: Option<usize>,
    pub niters: Option<usize>,
    pub stats_freq: Option<usize>,
    pub plot_freq: Option<usize>,
    pub px: Option<usize>,
    pub py: Option<usize>,
}

/// Size of the domain, shape of the tile grid, length of the run and the
/// scene. `ignored` holds the types of the scene objects that were left out
/// because their type is not known.
#[derive(Clone, Debug)]
pub struct ControlBlock {
    pub m: usize,
    pub n: usize,
    pub stats_freq: usize,
    pub plot_freq: usize,
    pub px: usize,
    pub py: usize,
    pub niters: usize,
    pub scene: Vec<SceneItem>,
    pub ignored: Vec<String>,
}

/// Default number of rows and of columns of the domain.
pub const DEFAULT_SIZE: usize = 100;

/// Default number of iterations.
pub const DEFAULT_ITERATIONS: usize = 100;

/// The value of a run parameter: what the command line says, else what the
/// document says, else the default.
pub open spec fn pick(cli: Option<usize>, file: Option<u64>, default: usize) -> usize {
    match cli {
        Some(v) => v,
        None => match file {
            Some(v) => v as usize,
            None => default,
        },
    }
}

/// Whether `cb` is what the command line, the document and the scene of the
/// document make together. The domain is square: its size sets both `m`
/// and `n`. The reporting intervals come from the command line alone.
pub open spec fn assembled(
    cb: ControlBlock,
    cli: CliOptions,
    file: FileOptions,
    items: Seq<SceneItem>,
    ignored: Seq<Seq<char>>,
) -> bool {
    &&& cb.n == pick(cli.n, file.n, DEFAULT_SIZE)
    &&& cb.m == cb.n
    &&& cb.niters == pick(cli.niters, file.niters, DEFAULT_ITERATIONS)
    &&& cb.px == pick(cli.px, file.px, 1)
    &&& cb.py == pick(cli.py, file.py, 1)
    &&& cb.stats_freq == or_default(cli.stats_freq, 0)
    &&& cb.plot_freq == or_default(cli.plot_freq, 0)
    &&& cb.scene@ == items
    &&& texts_of(cb.ignored@) == ignored
}

/// Whether `res` is what comes of the command line and document `doc`. A
/// document that is no object is refused, and so is one whose member
/// `objects` is no array. Any other document gives the control block: run
/// parameters from the command line, else from the document, else the
/// defaults, and the scene of the document, empty where it has no member
/// `objects`.
pub open spec fn assembled_from(
    res: Result<ControlBlock, ConfigError>,
    cli: CliOptions,
    doc: serde_json::Value,
) -> bool {
    if !json_is_object(doc) {
        res == Err::<ControlBlock, ConfigError>(ConfigError::NotAnObject)
    } else {
        match json_member(doc, "objects"@) {
            None => res matches Ok(cb) && assembled(cb, cli, file_options_of(doc), seq![], seq![]),
            Some(member) => match json_items(member) {
                None => res == Err::<ControlBlock, ConfigError>(ConfigError::ObjectsNotArray),
                Some(objects) => res matches Ok(cb) && assembled(
                    cb,
                    cli,
                    file_options_of(doc),
                    scene_of(objects),
                    ignored_of(objects),
                ),
            },
        }
    }
}

/// Whether `res` is what comes of the command line and the text of the
/// configuration document, if there is one. Without a document there is no
/// run, nor with a text that is not JSON: neither is made up for by
/// defaults.
pub open spec fn configured_from(
    res: Result<ControlBlock, ConfigError>,
    cli: CliOptions,
    config_text: Option<Seq<char>>,
) -> bool {
    match config_text {
        None => res == Err::<ControlBlock, ConfigError>(ConfigError::NoDocument),
        Some(text) => match parsed_json(text) {
            None => res == Err::<ControlBlock, ConfigError>(ConfigError::NotJson),
            Some(doc) => assembled_from(res, cli, doc),
        },
    }
}

/// Why the tiling of a whole domain cannot be laid out, if it cannot: the
/// reason that holds for some tile, or that the tiles cannot be numbered or
/// the frame cannot be indexed.
pub open spec fn geometry_error(m: nat, n: nat, px: nat, py: nat) -> Option<GeometryError> {
    if px == 0 || py == 0 {
        Some(GeometryError::NoTiles)
    } else if m == 0 || n == 0 {
        Some(GeometryError::EmptyDomain)
    } else if m < py || n < px {
        Some(GeometryError::EmptyTile)
    } else if px * py > i32::MAX || m * n > usize::MAX || 3 * ((part_len(m, py, 0) + 2) * (part_len(
        n,
        px,
        0,
    ) + 2)) > usize::MAX {
        Some(GeometryError::TooLarge)
    } else {
        None
    }
}

/// A tiling that can be laid out as a whole can be laid out tile by tile.
pub proof fn lemma_geometry_covers_tiles(m: nat, n: nat, px: nat, py: nat, t: int)
    requires
        geometry_error(m, n, px, py) is None,
        0 <= t < px * py,
    ensures
        tile_error(m, n, px, py, t) is None,
{
    let rows = part_len(m, py, tile_row(t as nat, px));
    let cols = part_len(n, px, tile_col(t as nat, px));
    assert((rows + 2) * (cols + 2) <= (part_len(m, py, 0) + 2) * (part_len(n, px, 0) + 2))
        by (nonlinear_arith)
        requires
            rows <= part_len(m, py, 0),
            cols <= part_len(n, px, 0),
    ;
}

impl ControlBlock {
    /// Puts a control block together from what the command line says, what
    /// the document says and the scene of the document.
    pub fn assemble(cli: &CliOptions, file: &FileOptions, scene: Scene) -> (cb: Self)
        ensures
            assembled(cb, *cli, *file, scene.items@, texts_of(scene.ignored@)),
    {
        let n = Self::choose_value(cli.n, file.n, DEFAULT_SIZE);
        ControlBlock {
            m: n,
            n,
            stats_freq: match cli.stats_freq {
                Some(v) => v,
                None => 0,
            },
            plot_freq: match cli.plot_freq {
                Some(v) => v,
                None => 0,
            },
            px: Self::choose_value(cli.px, file.px, 1),
            py: Self::choose_value(cli.py, file.py, 1),
            niters: Self::choose_value(cli.niters, file.niters, DEFAULT_ITERATIONS),
            scene: scene.items,
            ignored: scene.ignored,
        }
    }

    fn choose_value(cli: Option<usize>, file: Option<u64>, default: usize) -> (v: usize)
        ensures
            v == pick(cli, file, default),
    {
        match cli {
            Some(v) => v,
            None => match file {
                Some(v) => #[verifier::truncate]
                (v as usize),
                None => default,
            },
        }
    }

    /// Puts a control block together from what the command line says and
    /// from the parsed document, or says why the document cannot be used.
    pub fn from_document(cli: &CliOptions, doc: &serde_json::Value) -> (res: Result<
        Self,
        ConfigError,
    >)
        ensures
            assembled_from(res, *cli, *doc),
    {
        if !json_value_is_object(doc) {
            return Err(ConfigError::NotAnObject);
        }
        let file = file_options(doc);
        match read_scene(doc) {
            Ok(scene) => {
                assert(json_member(*doc, "objects"@) is None ==> texts_of(scene.ignored@)
                    =~= seq![] && scene.items@ =~= seq![]);
                Ok(Self::assemble(cli, &file, scene))
            },
            Err(e) => Err(e),
        }
    }

    /// Makes the control block of a run from what the command line says and
    /// the text of the configuration document, where there is one.
    ///
    /// A run needs its document: where the file could not be read, so that
    /// there is no text, and where the text is not JSON, the result is the
    /// error, and no run is made up from defaults. Where the document can be
    /// used, the command line goes before the document and the document
    /// before the defaults. What the text parses to is named by
    /// `parsed_json`.
    pub fn new(cli: &CliOptions, config_text: Option<&str>) -> (res: Result<Self, ConfigError>)
        ensures
            configured_from(
                res,
                *cli,
                match config_text {
                    Some(text) => Some(text@),
                    None => None,
                },
            ),
    {
        let text = match config_text {
            Some(text) => text,
            None => {
                return Err(ConfigError::NoDocument);
            },
        };
        match parse_document(text) {
            Some(doc) => Self::from_document(cli, &doc),
            None => Err(ConfigError::NotJson),
        }
    }

    /// Checks that the tiling can be laid out, and says why where it cannot.
    pub fn check_geometry(&self) -> (res: Result<(), GeometryError>)
        ensures
            match res {
                Ok(_) => geometry_error(
                    self.m as nat,
                    self.n as nat,
                    self.px as nat,
                    self.py as nat,
                ) is None,
                Err(e) => geometry_error(
                    self.m as nat,
                    self.n as nat,
                    self.px as nat,
                    self.py as nat,
                ) == Some(e),
            },
    {
        if self.px == 0 || self.py == 0 {
            return Err(GeometryError::NoTiles);
        }
        if self.m == 0 || self.n == 0 {
            return Err(GeometryError::EmptyDomain);
        }
        if self.m < self.py || self.n < self.px {
            return Err(GeometryError::EmptyTile);
        }
        let tiles = match self.px.checked_mul(self.py) {
            Some(tiles) => tiles,
            None => {
                return Err(GeometryError::TooLarge);
            },
        };
        if tiles > 0x7fff_ffff {
            return Err(GeometryError::TooLarge);
        }
        if self.m.checked_mul(self.n).is_none() {
            return Err(GeometryError::TooLarge);
        }
        let rows = crate::geometry::axis_extent(self.m, self.py, 0);
        let cols = crate::geometry::axis_extent(self.n, self.px, 0);
        let padded_rows = match rows.checked_add(2) {
            Some(v) => v,
            None => {
                assert(3 * ((rows + 2) * (cols + 2)) > usize::MAX) by (nonlinear_arith)
                    requires
                        rows + 2 > usize::MAX,
                        cols >= 0,
                ;
                return Err(GeometryError::TooLarge);
            },
        };
        let padded_cols = match cols.checked_add(2) {
            Some(v) => v,
            None => {
                assert(3 * ((rows + 2) * (cols + 2)) > usize::MAX) by (nonlinear_arith)
                    requires
                        cols + 2 > usize::MAX,
                        rows >= 0,
                ;
                return Err(GeometryError::TooLarge);
            },
        };
        proof {
            assert(padded_rows <= 3 * (padded_rows * padded_cols) && padded_cols <= 3 * (padded_rows
                * padded_cols)) by (nonlinear_arith)
                requires
                    padded_rows >= 1,
                    padded_cols >= 1,
            ;
        }
        let plane = match padded_rows.checked_mul(padded_cols) {
            Some(v) => v,
            None => {
                return Err(GeometryError::TooLarge);
            },
        };
        if plane.checked_mul(3).is_none() {
            return Err(GeometryError::TooLarge);
        }
        Ok(())
    }
}

} // verus!
