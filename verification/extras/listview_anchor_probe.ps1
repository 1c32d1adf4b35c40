$ErrorActionPreference = 'Stop'
$OutputEncoding = [Console]::OutputEncoding = [System.Text.Encoding]::UTF8
Add-Type -TypeDefinition @'
using System;
using System.Collections.Generic;
using System.Runtime.InteropServices;
using System.Text;

public class DesktopIconProbeItem {
    public int index;
    public string name;
    public int x;
    public int y;
}

public static class DesktopListViewProbe {
    private const UInt32 LVM_FIRST = 0x1000;
    private const UInt32 LVM_GETITEMCOUNT = LVM_FIRST + 4;
    private const UInt32 LVM_GETITEMPOSITION = LVM_FIRST + 16;
    private const UInt32 LVM_GETITEMTEXTW = LVM_FIRST + 115;
    private const UInt32 LVIF_TEXT = 0x0001;
    private const UInt32 MEM_COMMIT = 0x1000;
    private const UInt32 MEM_RELEASE = 0x8000;
    private const UInt32 PAGE_READWRITE = 0x04;
    private const UInt32 PROCESS_VM_OPERATION = 0x0008;
    private const UInt32 PROCESS_VM_READ = 0x0010;
    private const UInt32 PROCESS_VM_WRITE = 0x0020;
    private const UInt32 PROCESS_QUERY_INFORMATION = 0x0400;

    [StructLayout(LayoutKind.Sequential)]
    private struct POINT { public int X; public int Y; }

    [StructLayout(LayoutKind.Sequential, CharSet = CharSet.Unicode)]
    private struct LVITEMW {
        public UInt32 mask;
        public Int32 iItem;
        public Int32 iSubItem;
        public UInt32 state;
        public UInt32 stateMask;
        public IntPtr pszText;
        public Int32 cchTextMax;
        public Int32 iImage;
        public IntPtr lParam;
        public Int32 iIndent;
        public Int32 iGroupId;
        public UInt32 cColumns;
        public IntPtr puColumns;
        public IntPtr piColFmt;
        public Int32 iGroup;
    }

    private delegate bool EnumWindowsProc(IntPtr hWnd, IntPtr lParam);

    [DllImport("user32.dll", SetLastError = true, CharSet = CharSet.Unicode)]
    private static extern IntPtr FindWindow(string lpClassName, string lpWindowName);

    [DllImport("user32.dll", SetLastError = true, CharSet = CharSet.Unicode)]
    private static extern IntPtr FindWindowEx(IntPtr hwndParent, IntPtr hwndChildAfter, string lpszClass, string lpszWindow);

    [DllImport("user32.dll")]
    private static extern bool EnumWindows(EnumWindowsProc lpEnumFunc, IntPtr lParam);

    [DllImport("user32.dll")]
    private static extern IntPtr SendMessage(IntPtr hWnd, UInt32 Msg, IntPtr wParam, IntPtr lParam);

    [DllImport("user32.dll", SetLastError = true)]
    private static extern UInt32 GetWindowThreadProcessId(IntPtr hWnd, out UInt32 lpdwProcessId);

    [DllImport("kernel32.dll", SetLastError = true)]
    private static extern IntPtr OpenProcess(UInt32 dwDesiredAccess, bool bInheritHandle, UInt32 dwProcessId);

    [DllImport("kernel32.dll", SetLastError = true)]
    private static extern bool CloseHandle(IntPtr hObject);

    [DllImport("kernel32.dll", SetLastError = true)]
    private static extern IntPtr VirtualAllocEx(IntPtr hProcess, IntPtr lpAddress, UIntPtr dwSize, UInt32 flAllocationType, UInt32 flProtect);

    [DllImport("kernel32.dll", SetLastError = true)]
    private static extern bool VirtualFreeEx(IntPtr hProcess, IntPtr lpAddress, UIntPtr dwSize, UInt32 dwFreeType);

    [DllImport("kernel32.dll", SetLastError = true)]
    private static extern bool ReadProcessMemory(IntPtr hProcess, IntPtr lpBaseAddress, byte[] lpBuffer, Int32 dwSize, out IntPtr lpNumberOfBytesRead);

    [DllImport("kernel32.dll", SetLastError = true)]
    private static extern bool WriteProcessMemory(IntPtr hProcess, IntPtr lpBaseAddress, byte[] lpBuffer, Int32 nSize, out IntPtr lpNumberOfBytesWritten);

    public static IntPtr FindDesktopListView() {
        IntPtr progman = FindWindow("Progman", "Program Manager");
        IntPtr defView = FindWindowEx(progman, IntPtr.Zero, "SHELLDLL_DefView", null);
        if (defView != IntPtr.Zero) {
            IntPtr list = FindWindowEx(defView, IntPtr.Zero, "SysListView32", "FolderView");
            if (list != IntPtr.Zero) return list;
        }

        IntPtr found = IntPtr.Zero;
        EnumWindows(delegate (IntPtr hwnd, IntPtr lParam) {
            IntPtr shell = FindWindowEx(hwnd, IntPtr.Zero, "SHELLDLL_DefView", null);
            if (shell != IntPtr.Zero) {
                IntPtr list = FindWindowEx(shell, IntPtr.Zero, "SysListView32", "FolderView");
                if (list != IntPtr.Zero) {
                    found = list;
                    return false;
                }
            }
            return true;
        }, IntPtr.Zero);
        return found;
    }

    public static List<DesktopIconProbeItem> GetOpenWidGetAnchors() {
        IntPtr list = FindDesktopListView();
        if (list == IntPtr.Zero) throw new Exception("Desktop SysListView32 FolderView was not found");

        UInt32 pid;
        GetWindowThreadProcessId(list, out pid);
        IntPtr process = OpenProcess(PROCESS_QUERY_INFORMATION | PROCESS_VM_OPERATION | PROCESS_VM_READ | PROCESS_VM_WRITE, false, pid);
        if (process == IntPtr.Zero) throw new Exception("Failed to open Explorer process for ListView read");

        List<DesktopIconProbeItem> result = new List<DesktopIconProbeItem>();
        IntPtr remotePoint = IntPtr.Zero;
        IntPtr remoteText = IntPtr.Zero;
        IntPtr remoteItem = IntPtr.Zero;
        try {
            int count = SendMessage(list, LVM_GETITEMCOUNT, IntPtr.Zero, IntPtr.Zero).ToInt32();
            remotePoint = VirtualAllocEx(process, IntPtr.Zero, (UIntPtr)Marshal.SizeOf(typeof(POINT)), MEM_COMMIT, PAGE_READWRITE);
            remoteText = VirtualAllocEx(process, IntPtr.Zero, (UIntPtr)520, MEM_COMMIT, PAGE_READWRITE);
            remoteItem = VirtualAllocEx(process, IntPtr.Zero, (UIntPtr)Marshal.SizeOf(typeof(LVITEMW)), MEM_COMMIT, PAGE_READWRITE);
            for (int i = 0; i < count; i++) {
                SendMessage(list, LVM_GETITEMPOSITION, (IntPtr)i, remotePoint);
                byte[] pointBytes = new byte[Marshal.SizeOf(typeof(POINT))];
                IntPtr bytesRead;
                ReadProcessMemory(process, remotePoint, pointBytes, pointBytes.Length, out bytesRead);
                int x = BitConverter.ToInt32(pointBytes, 0);
                int y = BitConverter.ToInt32(pointBytes, 4);

                LVITEMW item = new LVITEMW();
                item.mask = LVIF_TEXT;
                item.iSubItem = 0;
                item.pszText = remoteText;
                item.cchTextMax = 260;
                byte[] itemBytes = new byte[Marshal.SizeOf(typeof(LVITEMW))];
                IntPtr localItem = Marshal.AllocHGlobal(itemBytes.Length);
                try {
                    Marshal.StructureToPtr(item, localItem, false);
                    Marshal.Copy(localItem, itemBytes, 0, itemBytes.Length);
                } finally {
                    Marshal.FreeHGlobal(localItem);
                }
                IntPtr bytesWritten;
                WriteProcessMemory(process, remoteItem, itemBytes, itemBytes.Length, out bytesWritten);
                SendMessage(list, LVM_GETITEMTEXTW, (IntPtr)i, remoteItem);
                byte[] textBytes = new byte[520];
                ReadProcessMemory(process, remoteText, textBytes, textBytes.Length, out bytesRead);
                string name = Encoding.Unicode.GetString(textBytes).TrimEnd('\0');
                if (name.StartsWith("OpenWidGet Anchor", StringComparison.OrdinalIgnoreCase)) {
                    result.Add(new DesktopIconProbeItem { index = i, name = name, x = x, y = y });
                }
            }
        } finally {
            if (remotePoint != IntPtr.Zero) VirtualFreeEx(process, remotePoint, UIntPtr.Zero, MEM_RELEASE);
            if (remoteText != IntPtr.Zero) VirtualFreeEx(process, remoteText, UIntPtr.Zero, MEM_RELEASE);
            if (remoteItem != IntPtr.Zero) VirtualFreeEx(process, remoteItem, UIntPtr.Zero, MEM_RELEASE);
            CloseHandle(process);
        }
        return result;
    }
}
'@
[DesktopListViewProbe]::GetOpenWidGetAnchors() | ConvertTo-Json -Depth 5 -Compress
