use alander::editor_command::{CommandManager, EditorCommand};

/// Appends a value to the scene; undo takes it back off.
struct Push(i32, &'static str);

impl EditorCommand<Vec<i32>, u32> for Push {
    fn execute(&mut self, scene: &mut Vec<i32>, renderer: &mut u32) {
        scene.push(self.0);
        *renderer += 1;
    }

    fn undo(&mut self, scene: &mut Vec<i32>, renderer: &mut u32) {
        scene.pop();
        *renderer += 1;
    }

    fn name(&self) -> &str {
        self.1
    }
}

#[test]
fn execute_undo_redo() {
    let mut history = CommandManager::new(10);
    let mut scene = Vec::new();
    let mut frames = 0u32;
    assert!(!history.can_undo());
    assert!(!history.can_redo());
    history.execute(Push(1, "one"), &mut scene, &mut frames);
    history.execute(Push(2, "two"), &mut scene, &mut frames);
    assert_eq!(scene, vec![1, 2]);
    assert_eq!(history.last_undo_name::<Vec<i32>, u32>(), Some("two"));
    history.undo(&mut scene, &mut frames);
    assert_eq!(scene, vec![1]);
    assert!(history.can_redo());
    assert_eq!(history.last_redo_name::<Vec<i32>, u32>(), Some("two"));
    assert_eq!(history.last_undo_name::<Vec<i32>, u32>(), Some("one"));
    history.redo(&mut scene, &mut frames);
    assert_eq!(scene, vec![1, 2]);
    assert!(!history.can_redo());
    assert_eq!(frames, 4);
}

#[test]
fn new_command_clears_redo() {
    let mut history = CommandManager::new(10);
    let mut scene = Vec::new();
    let mut frames = 0u32;
    history.execute(Push(1, "one"), &mut scene, &mut frames);
    history.undo(&mut scene, &mut frames);
    assert!(history.can_redo());
    history.execute(Push(3, "three"), &mut scene, &mut frames);
    assert!(!history.can_redo());
    assert_eq!(history.last_redo_name::<Vec<i32>, u32>(), None);
    assert_eq!(scene, vec![3]);
}

#[test]
fn history_keeps_max_depth() {
    let mut history = CommandManager::new(2);
    let mut scene = Vec::new();
    let mut frames = 0u32;
    history.execute(Push(1, "one"), &mut scene, &mut frames);
    history.execute(Push(2, "two"), &mut scene, &mut frames);
    history.execute(Push(3, "three"), &mut scene, &mut frames);
    history.undo(&mut scene, &mut frames);
    history.undo(&mut scene, &mut frames);
    assert!(!history.can_undo());
    history.undo(&mut scene, &mut frames);
    assert_eq!(scene, vec![1]);
}

#[test]
fn zero_depth_keeps_nothing() {
    let mut history = CommandManager::new(0);
    let mut scene = Vec::new();
    let mut frames = 0u32;
    history.execute(Push(1, "one"), &mut scene, &mut frames);
    assert_eq!(scene, vec![1]);
    assert!(!history.can_undo());
}

#[test]
fn record_without_running() {
    let mut history: CommandManager<Push> = CommandManager::new(5);
    history.record(Push(9, "nine"));
    assert!(history.can_undo());
    assert_eq!(history.last_undo_name::<Vec<i32>, u32>(), Some("nine"));
}

#[test]
fn undo_on_empty_does_nothing() {
    let mut history: CommandManager<Push> = CommandManager::new(5);
    let mut scene = vec![7];
    let mut frames = 0u32;
    history.undo(&mut scene, &mut frames);
    history.redo(&mut scene, &mut frames);
    assert_eq!(scene, vec![7]);
    assert_eq!(frames, 0);
}

#[test]
fn history_undoes_newest_first_and_forgets_oldest() {
    let mut history = CommandManager::new(3);
    let mut scene = Vec::new();
    let mut frames = 0u32;
    history.execute(Push(1, "one"), &mut scene, &mut frames);
    history.execute(Push(2, "two"), &mut scene, &mut frames);
    history.execute(Push(3, "three"), &mut scene, &mut frames);
    history.execute(Push(4, "four"), &mut scene, &mut frames);
    assert_eq!(history.last_undo_name::<Vec<i32>, u32>(), Some("four"));
    history.undo(&mut scene, &mut frames);
    assert_eq!(history.last_undo_name::<Vec<i32>, u32>(), Some("three"));
    history.undo(&mut scene, &mut frames);
    assert_eq!(history.last_undo_name::<Vec<i32>, u32>(), Some("two"));
    history.undo(&mut scene, &mut frames);
    assert_eq!(history.last_undo_name::<Vec<i32>, u32>(), None);
    history.undo(&mut scene, &mut frames);
    assert_eq!(scene, vec![1]);
    assert_eq!(history.last_redo_name::<Vec<i32>, u32>(), Some("two"));
}

#[test]
fn undo_then_redo_keeps_labels() {
    let mut history = CommandManager::new(4);
    let mut scene = Vec::new();
    let mut frames = 0u32;
    history.execute(Push(5, "five"), &mut scene, &mut frames);
    history.execute(Push(6, "six"), &mut scene, &mut frames);
    let before = (history.can_undo(), history.can_redo());
    assert_eq!(history.last_undo_name::<Vec<i32>, u32>(), Some("six"));
    history.undo(&mut scene, &mut frames);
    assert_eq!(history.last_redo_name::<Vec<i32>, u32>(), Some("six"));
    history.redo(&mut scene, &mut frames);
    assert_eq!((history.can_undo(), history.can_redo()), before);
    assert_eq!(history.last_undo_name::<Vec<i32>, u32>(), Some("six"));
    assert_eq!(history.last_redo_name::<Vec<i32>, u32>(), None);
    assert_eq!(scene, vec![5, 6]);
}
