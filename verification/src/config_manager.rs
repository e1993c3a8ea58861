//! The configuration: colours, percentiles and the access token.
//!
//! Every section of a configuration is optional. A configuration that was
//! read from a file is completed with the default sections before use.

use vstd::prelude::*;
use vstd::string::*;

verus! {

/// What the user has configured.
#[derive(Debug)]
pub struct Config {
    pub github_token: Option<String>,
    pub graph_colors: Option<GraphColors>,
    pub text_colors: Option<TextColors>,
    pub graph_data: Option<GraphData>,
}

/// The colours of the four intensity levels, each as `"r,g,b"`.
#[derive(Debug)]
pub struct GraphColors {
    pub level1: String,
    pub level2: String,
    pub level3: String,
    pub level4: String,
}

/// The colour of the labels in the summary, as `"r,g,b"`.
#[derive(Debug)]
pub struct TextColors {
    pub info_color: String,
}

/// The percentiles at which the intensity thresholds are read.
#[derive(Debug)]
pub struct GraphData {
    pub percentiles: [usize; 4],
}

/// The percentiles used where none are configured.
pub open spec fn default_percentiles() -> Seq<usize> {
    seq![0usize, 30usize, 60usize, 90usize]
}

impl GraphColors {
    /// Whether these are the default colours, four shades of green.
    pub open spec fn is_default(self) -> bool {
        &&& self.level1@ == "13,68,41"@
        &&& self.level2@ == "1,108,49"@
        &&& self.level3@ == "38,166,65"@
        &&& self.level4@ == "57,211,83"@
    }
}

impl TextColors {
    /// Whether this is the default colour, cyan.
    pub open spec fn is_default(self) -> bool {
        self.info_color@ == "0,255,255"@
    }
}

impl GraphData {
    /// Whether these are the default percentiles.
    pub open spec fn is_default(self) -> bool {
        self.percentiles@ == default_percentiles()
    }
}

impl Config {
    /// Whether every section but the token is present.
    pub open spec fn is_complete(self) -> bool {
        &&& self.graph_colors is Some
        &&& self.text_colors is Some
        &&& self.graph_data is Some
    }

    /// Whether this is the default configuration: no token, and every
    /// other section at its default.
    pub open spec fn is_default(self) -> bool {
        &&& self.github_token is None
        &&& self.graph_colors matches Some(colors) && colors.is_default()
        &&& self.text_colors matches Some(colors) && colors.is_default()
        &&& self.graph_data matches Some(data) && data.is_default()
    }

    /// The percentiles that this configuration asks for.
    pub open spec fn percentiles(self) -> Seq<usize> {
        match self.graph_data {
            Some(data) => data.percentiles@,
            None => default_percentiles(),
        }
    }

    /// Completes a configuration: each section that is absent is taken
    /// from the default configuration, and what is present stays as it is.
    pub fn with_defaults(self) -> (merged: Config)
        ensures
            merged.github_token == self.github_token,
            merged.is_complete(),
            self.graph_colors is Some ==> merged.graph_colors == self.graph_colors,
            self.text_colors is Some ==> merged.text_colors == self.text_colors,
            self.graph_data is Some ==> merged.graph_data == self.graph_data,
            self.graph_colors is None ==> merged.graph_colors->0.is_default(),
            self.text_colors is None ==> merged.text_colors->0.is_default(),
            self.graph_data is None ==> merged.graph_data->0.is_default(),
            merged.percentiles() == self.percentiles(),
    {
        let default_config = Config::default();
        let mut config = self;
        if config.graph_colors.is_none() {
            config.graph_colors = default_config.graph_colors;
        }
        if config.text_colors.is_none() {
            config.text_colors = default_config.text_colors;
        }
        if config.graph_data.is_none() {
            config.graph_data = default_config.graph_data;
        }
        config
    }

    /// The configured percentiles, or the default ones.
    pub fn percentiles_or_default(&self) -> (percentiles: [usize; 4])
        ensures
            percentiles@ == self.percentiles(),
    {
        match &self.graph_data {
            Some(data) => data.percentiles,
            None => {
                let percentiles: [usize; 4] = [0, 30, 60, 90];
                assert(percentiles@ =~= default_percentiles());
                percentiles
            },
        }
    }
}

impl Default for Config {
    /// The default configuration: no token, four shades of green for the
    /// graph, cyan for the summary labels, and the percentiles 0, 30, 60
    /// and 90.
    fn default() -> (config: Self)
        ensures
            config.is_default(),
    {
        let percentiles: [usize; 4] = [0, 30, 60, 90];
        assert(percentiles@ =~= default_percentiles());
        Config {
            github_token: None,
            graph_colors: Some(
                GraphColors {
                    level1: String::from_str("13,68,41"),
                    level2: String::from_str("1,108,49"),
                    level3: String::from_str("38,166,65"),
                    level4: String::from_str("57,211,83"),
                },
            ),
            text_colors: Some(TextColors { info_color: String::from_str("0,255,255") }),
            graph_data: Some(GraphData { percentiles }),
        }
    }
}

} // verus!
