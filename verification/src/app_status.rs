//! The application receipt shown by the preview surface.
use vstd::prelude::*;

verus! {

/// One bundled widget shown in the preview.
#[derive(Debug, Clone, Copy)]
pub struct WidgetPreview {
    pub id: &'static str,
    pub name: &'static str,
    pub size: &'static str,
    pub status: &'static str,
}

/// The application's name, version, mode and bundled widgets.
#[derive(Debug, Clone)]
pub struct AppStatus {
    pub app_name: &'static str,
    pub version: &'static str,
    pub mode: &'static str,
    pub widgets: Vec<WidgetPreview>,
}

/// `w` is the bundled preview widget `id` named `name` of size `size`.
pub open spec fn is_preview(w: WidgetPreview, id: Seq<char>, name: Seq<char>, size: Seq<char>) -> bool {
    &&& w.id@ == id
    &&& w.name@ == name
    &&& w.size@ == size
    &&& w.status@ == "bundled-preview"@
}

/// The shell-preview receipt of OpenWidGet `version`: the Clock and Memo widgets at
/// 2×2 and the Project Launcher at 4×2.
pub fn get_app_status(version: &'static str) -> (st: AppStatus)
    ensures
        st.app_name@ == "OpenWidGet"@,
        st.version == version,
        st.mode@ == "shell-preview"@,
        st.widgets@.len() == 3,
        is_preview(st.widgets@[0], "clock"@, "Clock"@, "2\u{d7}2"@),
        is_preview(st.widgets@[1], "memo"@, "Memo"@, "2\u{d7}2"@),
        is_preview(st.widgets@[2], "launcher"@, "Project Launcher"@, "4\u{d7}2"@),
{
    let mut widgets: Vec<WidgetPreview> = Vec::new();
    widgets.push(WidgetPreview { id: "clock", name: "Clock", size: "2\u{d7}2", status: "bundled-preview" });
    widgets.push(WidgetPreview { id: "memo", name: "Memo", size: "2\u{d7}2", status: "bundled-preview" });
    widgets.push(
        WidgetPreview {
            id: "launcher",
            name: "Project Launcher",
            size: "4\u{d7}2",
            status: "bundled-preview",
        },
    );
    AppStatus { app_name: "OpenWidGet", version, mode: "shell-preview", widgets }
}

} // verus!
