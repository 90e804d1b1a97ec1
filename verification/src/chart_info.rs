//! The chart-info editor's state: which files the user picked to replace
//! the chart's own, and which archive entries they become.

use vstd::prelude::*;
use crate::text::str_eq;

verus! {

/// The file names a chart's info points at.
pub struct ChartFiles {
    pub chart: String,
    pub music: String,
    pub illustration: String,
    pub unlock_video: Option<String>,
}

/// An edit in progress: the info being edited, the local files picked to
/// replace the chart, the music, the illustration and the unlock video,
/// whether the unlock video is on, and whether anything changed.
pub struct ChartInfoEdit {
    pub info: ChartFiles,
    pub chart: Option<String>,
    pub music: Option<String>,
    pub illustration: Option<String>,
    pub unlock_video: Option<String>,
    pub enable_unlock: bool,
    pub updated: bool,
}

/// The archive name a new unlock video is stored under when the info
/// names none.
pub open spec fn default_unlock_name() -> Seq<char> {
    "unlock.mp4"@
}

/// The archive entry an unlock video goes to.
pub open spec fn unlock_target(unlock_video: Option<String>) -> Seq<char> {
    match unlock_video {
        Some(name) => name@,
        None => default_unlock_name(),
    }
}

/// One patch, when a local file was picked: the archive entry and the file.
pub open spec fn patch_if_picked(target: Seq<char>, picked: Option<String>) -> Seq<(Seq<char>, Seq<char>)> {
    match picked {
        Some(file) => seq![(target, file@)],
        None => Seq::empty(),
    }
}

/// The patches an edit makes, in order: chart, music, illustration, and
/// the unlock video when it is on.
pub open spec fn patch_plan(e: ChartInfoEdit) -> Seq<(Seq<char>, Seq<char>)> {
    patch_if_picked(e.info.chart@, e.chart) + patch_if_picked(e.info.music@, e.music)
        + patch_if_picked(e.info.illustration@, e.illustration) + if e.enable_unlock {
        patch_if_picked(unlock_target(e.info.unlock_video), e.unlock_video)
    } else {
        Seq::empty()
    }
}

/// The views of a list of patches.
pub open spec fn pair_views(v: Seq<(String, String)>) -> Seq<(Seq<char>, Seq<char>)> {
    v.map_values(|p: (String, String)| (p.0@, p.1@))
}

fn push_if_picked(out: &mut Vec<(String, String)>, target: &String, picked: &Option<String>)
    ensures
        pair_views(final(out)@) == pair_views(old(out)@) + patch_if_picked(target@, *picked),
{
    if let Some(file) = picked {
        out.push((target.clone(), file.clone()));
        proof {
            assert(pair_views(final(out)@) =~= pair_views(old(out)@) + patch_if_picked(target@, *picked));
        }
    } else {
        proof {
            assert(pair_views(final(out)@) =~= pair_views(old(out)@) + patch_if_picked(target@, *picked));
        }
    }
}

impl ChartInfoEdit {
    /// A fresh edit of `info`: nothing picked, nothing changed, and the
    /// unlock video on exactly when the info names one.
    pub fn new(info: ChartFiles) -> (e: Self)
        ensures
            e.info == info,
            e.chart is None,
            e.music is None,
            e.illustration is None,
            e.unlock_video is None,
            e.enable_unlock == info.unlock_video is Some,
            !e.updated,
    {
        let enable_unlock = info.unlock_video.is_some();
        ChartInfoEdit {
            info,
            chart: None,
            music: None,
            illustration: None,
            unlock_video: None,
            enable_unlock,
            updated: false,
        }
    }

    /// The "enable unlock" box was clicked: turning it off clears the info's
    /// unlock video, turning it on names the default one.
    pub fn toggle_unlock(&mut self)
        ensures
            final(self).enable_unlock == !old(self).enable_unlock,
            old(self).enable_unlock ==> final(self).info.unlock_video is None,
            !old(self).enable_unlock ==> (final(self).info.unlock_video matches Some(name) && name@
                == default_unlock_name()),
            final(self).updated,
            final(self).info.chart == old(self).info.chart,
            final(self).info.music == old(self).info.music,
            final(self).info.illustration == old(self).info.illustration,
            final(self).chart == old(self).chart,
            final(self).music == old(self).music,
            final(self).illustration == old(self).illustration,
            final(self).unlock_video == old(self).unlock_video,
    {
        if self.enable_unlock {
            self.info.unlock_video = None;
            self.enable_unlock = false;
        } else {
            self.info.unlock_video = Some("unlock.mp4".to_owned());
            self.enable_unlock = true;
        }
        self.updated = true;
    }

    /// A file picked under `id` arrived. `chart`, `music` and
    /// `illustration` take it; `unlock` takes it while the unlock video is
    /// on and drops it otherwise; any other id is not this editor's, and the
    /// pair is handed back.
    pub fn accept_file(&mut self, id: &str, file: String) -> (rest: Option<(String, String)>)
        ensures
            id@ == "chart"@ ==> rest is None && final(self).chart == Some(file) && final(self).updated
                && final(self).music == old(self).music && final(self).illustration == old(
                self,
            ).illustration && final(self).unlock_video == old(self).unlock_video,
            id@ == "music"@ ==> rest is None && final(self).music == Some(file) && final(self).updated
                && final(self).chart == old(self).chart && final(self).illustration == old(
                self,
            ).illustration && final(self).unlock_video == old(self).unlock_video,
            id@ == "illustration"@ ==> rest is None && final(self).illustration == Some(file)
                && final(self).updated && final(self).chart == old(self).chart && final(self).music
                == old(self).music && final(self).unlock_video == old(self).unlock_video,
            id@ == "unlock"@ ==> rest is None && final(self).chart == old(self).chart
                && final(self).music == old(self).music && final(self).illustration == old(
                self,
            ).illustration && (if old(self).enable_unlock {
                final(self).unlock_video == Some(file) && final(self).updated
            } else {
                final(self).unlock_video == old(self).unlock_video && final(self).updated == old(
                    self,
                ).updated
            }),
            id@ != "chart"@ && id@ != "music"@ && id@ != "illustration"@ && id@ != "unlock"@ ==> ((
            rest matches Some(p) && p.0@ == id@ && p.1 == file) && *final(self) == *old(self)),
            final(self).info == old(self).info,
            final(self).enable_unlock == old(self).enable_unlock,
    {
        proof {
            reveal_strlit("chart");
            reveal_strlit("music");
            reveal_strlit("illustration");
            reveal_strlit("unlock");
            assert("chart"@[0] != "music"@[0]);
            assert("chart"@.len() != "unlock"@.len() && "music"@.len() != "unlock"@.len());
            assert("illustration"@.len() == 12);
        }
        if str_eq(id, "chart") {
            self.chart = Some(file);
            self.updated = true;
            None
        } else if str_eq(id, "music") {
            self.music = Some(file);
            self.updated = true;
            None
        } else if str_eq(id, "illustration") {
            self.illustration = Some(file);
            self.updated = true;
            None
        } else if str_eq(id, "unlock") {
            if self.enable_unlock {
                self.unlock_video = Some(file);
                self.updated = true;
            }
            None
        } else {
            Some((id.to_owned(), file))
        }
    }

    /// The archive entries the edit replaces, each with the local file that
    /// replaces it: the chart, the music and the illustration when picked,
    /// and the unlock video when it is on and picked, stored under the
    /// info's unlock name or the default one.
    pub fn patch_sources(&self) -> (r: Vec<(String, String)>)
        ensures
            pair_views(r@) == patch_plan(*self),
    {
        let mut out: Vec<(String, String)> = Vec::new();
        push_if_picked(&mut out, &self.info.chart, &self.chart);
        push_if_picked(&mut out, &self.info.music, &self.music);
        push_if_picked(&mut out, &self.info.illustration, &self.illustration);
        if self.enable_unlock {
            let target = match &self.info.unlock_video {
                Some(name) => name.clone(),
                None => "unlock.mp4".to_owned(),
            };
            push_if_picked(&mut out, &target, &self.unlock_video);
        }
        proof {
            assert(pair_views(Seq::<(String, String)>::empty()) =~= Seq::empty());
        }
        out
    }
}

} // verus!
