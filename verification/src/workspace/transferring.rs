//! Bringing files to and from a remote machine, where the user picks a path first.
use vstd::prelude::*;

use crate::sftp::SftpView;
use crate::text::{option_text, texts};
use crate::workspace::{Desk, Effect, EffectView, Workspace};

verus! {

/// What came of asking the user for a path.
#[derive(Debug)]
pub enum PickerAnswer {
    Chosen(Vec<String>),
    /// The dialog did not come up, for this reason.
    Failed(String),
    Cancelled,
}

/// Where files are brought to: the group whose worker does it, and the directory that it
/// shows.
#[derive(Debug)]
pub struct TransferPlace {
    pub group_id: String,
    pub directory: String,
}

/// The path that was picked, the last one where there are several.
pub open spec fn picked(answer: PickerAnswer) -> Option<Seq<char>> {
    match answer {
        PickerAnswer::Chosen(paths) => if paths@.len() > 0 {
            Some(paths@.last()@)
        } else {
            None
        },
        _ => None,
    }
}

impl Desk {
    /// The directory to which files are brought.
    pub open spec fn transfer_directory(self) -> Seq<char> {
        match self.files() {
            Some(files) => files.current_path,
            None => "/"@,
        }
    }

    /// Where the dialog did not come up, it is said why.
    pub open spec fn picker_told(self, answer: PickerAnswer, what: Seq<char>) -> Desk {
        match answer {
            PickerAnswer::Failed(reason) => self.says(what + " picker failed: "@ + reason@),
            _ => self,
        }
    }

    /// A remote file is brought to the directory that was picked.
    pub open spec fn entry_downloaded(
        self,
        group: Seq<char>,
        remote: Seq<char>,
        answer: PickerAnswer,
    ) -> Desk {
        match picked(answer) {
            Some(directory) => self.asks(EffectView::Download { group, remote, directory }),
            None => self.picker_told(answer, "download"@),
        }
    }

    /// Remote files are brought to a directory, in order.
    pub open spec fn all_downloaded(
        self,
        group: Seq<char>,
        remotes: Seq<Seq<char>>,
        directory: Seq<char>,
    ) -> Desk
        decreases remotes.len(),
    {
        if remotes.len() == 0 {
            self
        } else {
            self.all_downloaded(group, remotes.drop_last(), directory).asks(
                EffectView::Download { group, remote: remotes.last(), directory },
            )
        }
    }

    /// No remote file is selected any more.
    pub open spec fn files_unselected(self) -> Desk {
        match self.files() {
            Some(files) => self.with_files(
                SftpView { selected: Set::empty(), ..files },
            ),
            None => self,
        }
    }

    /// The path that was picked is brought to a remote directory.
    pub open spec fn pick_uploaded(
        self,
        group: Seq<char>,
        directory: Seq<char>,
        answer: PickerAnswer,
    ) -> Desk {
        match picked(answer) {
            Some(path) => self.asks(EffectView::Upload { group, paths: seq![path], directory }),
            None => self.picker_told(answer, "upload"@),
        }
    }
}

/// The path that was picked.
fn take_picked(answer: &PickerAnswer) -> (r: Option<String>)
    ensures
        option_text(r) == picked(*answer),
{
    match answer {
        PickerAnswer::Chosen(paths) => if paths.len() > 0 {
            Some(paths[paths.len() - 1].clone())
        } else {
            None
        },
        _ => None,
    }
}

impl Workspace {
    /// Where files are brought to; none where no worker serves the group in front.
    pub fn transfer_place(&self) -> (r: Option<TransferPlace>)
        ensures
            match r {
                Some(place) => self@.is_served() && self@.active_group == Some(place.group_id@)
                    && place.directory@ == self@.transfer_directory(),
                None => !self@.is_served(),
            },
    {
        if !self.served() {
            return None;
        }
        let group_id: String = match &self.active_group {
            Some(id) => id.clone(),
            None => {
                return None;
            },
        };
        let directory: String = match self.find_files_group() {
            Some(i) => match &self.tab_groups[i].sftp {
                Some(sftp) => sftp.current_path.clone(),
                None => "/".to_string(),
            },
            None => "/".to_string(),
        };
        Some(TransferPlace { group_id, directory })
    }

    fn unselect_files(&mut self)
        ensures
            final(self)@ == old(self)@.files_unselected(),
    {
        let ghost before = self@;
        if let Some(i) = self.find_files_group() {
            if let Some(sftp) = &mut self.tab_groups[i].sftp {
                sftp.selected_entries.clear();
            }
            assert(self@.groups =~= before.files_unselected().groups);
        }
    }

    fn tell_picker(&mut self, answer: &PickerAnswer, what: &str)
        ensures
            final(self)@ == old(self)@.picker_told(*answer, what@),
    {
        match answer {
            PickerAnswer::Failed(reason) => {
                let mut text = what.to_owned();
                text.append(" picker failed: ");
                text.append(reason.as_str());
                self.status = text;
            },
            _ => {},
        }
    }

    /// Has the worker of a group bring a remote file to the directory that was picked.
    /// Tells whether the transfers are to be shown.
    pub fn download_sftp_entry(
        &mut self,
        group_id: &str,
        remote_path: &str,
        answer: PickerAnswer,
    ) -> (r: bool)
        ensures
            final(self)@ == old(self)@.entry_downloaded(group_id@, remote_path@, answer),
            r == (picked(answer) is Some),
    {
        match take_picked(&answer) {
            Some(directory) => {
                self.ask(
                    Effect::Download {
                        group_id: group_id.to_string(),
                        remote: remote_path.to_string(),
                        directory,
                    },
                );
                true
            },
            None => {
                self.tell_picker(&answer, "download");
                false
            },
        }
    }

    /// Has the worker of a group bring remote files to the directory that was picked, in
    /// order, and drops the selection. Tells whether the transfers are to be shown.
    pub fn download_selected_sftp_entries(
        &mut self,
        group_id: &str,
        remotes: &Vec<String>,
        answer: PickerAnswer,
    ) -> (r: bool)
        ensures
            final(self)@ == (match picked(answer) {
                Some(directory) => old(self)@.all_downloaded(
                    group_id@,
                    texts(remotes@),
                    directory,
                ).files_unselected(),
                None => old(self)@,
            }),
            r == (picked(answer) is Some),
    {
        let directory: String = match take_picked(&answer) {
            Some(directory) => directory,
            None => {
                return false;
            },
        };
        let ghost all = texts(remotes@);
        let ghost before = self@;
        let mut i: usize = 0;
        assert(all.take(0) =~= Seq::empty());
        while i < remotes.len()
            invariant
                i <= remotes@.len(),
                all == texts(remotes@),
                self@ == before.all_downloaded(group_id@, all.take(i as int), directory@),
            decreases remotes.len() - i,
        {
            assert(all.take(i + 1).drop_last() =~= all.take(i as int));
            assert(all.take(i + 1).last() == remotes@[i as int]@);
            self.ask(
                Effect::Download {
                    group_id: group_id.to_string(),
                    remote: remotes[i].clone(),
                    directory: directory.clone(),
                },
            );
            i += 1;
        }
        assert(all.take(i as int) =~= all);
        self.unselect_files();
        true
    }

    /// Has the worker of a group bring the file that was picked to a remote directory.
    /// Tells whether the transfers are to be shown.
    pub fn upload_sftp_files(&mut self, place: TransferPlace, answer: PickerAnswer) -> (r: bool)
        ensures
            final(self)@ == old(self)@.pick_uploaded(place.group_id@, place.directory@, answer),
            r == (picked(answer) is Some),
    {
        match take_picked(&answer) {
            Some(path) => {
                let mut paths: Vec<String> = Vec::new();
                let ghost name = path@;
                paths.push(path);
                assert(texts(paths@) =~= seq![name]);
                self.ask(
                    Effect::Upload {
                        group_id: place.group_id,
                        paths,
                        directory: place.directory,
                    },
                );
                true
            },
            None => {
                self.tell_picker(&answer, "upload");
                false
            },
        }
    }

    /// Has the worker of a group bring the directory that was picked to a remote one.
    /// Tells whether the transfers are to be shown.
    pub fn upload_sftp_folder(&mut self, place: TransferPlace, answer: PickerAnswer) -> (r: bool)
        ensures
            final(self)@ == old(self)@.pick_uploaded(place.group_id@, place.directory@, answer),
            r == (picked(answer) is Some),
    {
        self.upload_sftp_files(place, answer)
    }
}

/// A batch asks for each remote file once, in order, and for nothing else.
pub proof fn a_batch_asks_for_each_file_once(
    desk: Desk,
    group: Seq<char>,
    remotes: Seq<Seq<char>>,
    directory: Seq<char>,
)
    ensures
        desk.all_downloaded(group, remotes, directory) == (Desk {
            effects: desk.effects + Seq::new(
                remotes.len(),
                |i: int| EffectView::Download { group, remote: remotes[i], directory },
            ),
            ..desk
        }),
    decreases remotes.len(),
{
    let asked = Seq::new(
        remotes.len(),
        |i: int| EffectView::Download { group, remote: remotes[i], directory },
    );
    if remotes.len() == 0 {
        assert(desk.effects + asked =~= desk.effects);
    } else {
        let init = remotes.drop_last();
        a_batch_asks_for_each_file_once(desk, group, init, directory);
        let before = Seq::new(
            init.len(),
            |i: int| EffectView::Download { group, remote: init[i], directory },
        );
        assert(desk.effects + asked =~= (desk.effects + before).push(
            EffectView::Download { group, remote: remotes.last(), directory },
        ));
    }
}

} // verus!
